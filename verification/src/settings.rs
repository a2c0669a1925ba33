//! What the user has chosen, and what is remembered about each channel.
//!
//! The file it is kept in, and the width of the chat pane, which is a matter
//! of the window, belong to the application.

use crate::text;
use vstd::prelude::*;
use vstd::slice::*;

verus! {

/// Which stream quality to pull.
#[derive(Debug, Clone, PartialEq, Eq)]
pub enum QualityPreference {
    /// Choose based on the size of the video pane.
    Auto,
    /// Always ask for this streamlink quality name, e.g. `"720p60"`.
    Fixed(String),
}

/// The tokens of a device-code sign-in.
#[derive(Debug, Clone, PartialEq, Eq)]
pub struct OAuthTokens {
    pub access_token: String,
    /// Single use: every refresh returns a new one and ends the old one.
    pub refresh_token: String,
    /// Unix seconds.
    pub expires_at: u64,
    pub user_id: String,
    pub login: String,
}

/// Twitch credentials: the application's id, the site's cookie, and the tokens
/// of a sign-in. The cookie and the tokens are unrelated to each other.
#[derive(Debug, Clone, PartialEq, Eq)]
pub struct Credentials {
    pub client_id: Option<String>,
    pub auth_token: Option<String>,
    pub oauth: Option<OAuthTokens>,
}

/// What is remembered about one channel.
#[derive(Debug, Clone, Copy, PartialEq, Eq)]
pub struct ChannelPrefs {
    /// 0-100. `None` means that nobody has ever set a level here, which is not
    /// the same as a channel that was muted.
    pub volume: Option<u8>,
}

/// One channel's entry in [`Settings::channel_prefs`].
#[derive(Debug, Clone, PartialEq, Eq)]
pub struct ChannelEntry {
    /// The channel, as [`channel_key`] writes it.
    pub key: String,
    pub prefs: ChannelPrefs,
}

#[derive(Debug, Clone, PartialEq, Eq)]
pub struct Settings {
    pub quality: QualityPreference,
    /// 0-100. What a channel with no remembered level of its own opens at.
    pub volume: u8,
    /// Per-channel overrides, no channel twice.
    pub channel_prefs: Vec<ChannelEntry>,
    pub credentials: Credentials,
    pub last_channel: Option<String>,
    /// How many messages from before joining a new chat pane opens with.
    pub chat_history: usize,
}

// ── Channels ─────────────────────────────────────────────────────────

/// `s` without the `#`s it begins with.
pub open spec fn unhashed(s: Seq<char>) -> Seq<char>
    decreases s.len(),
{
    if s.len() > 0 && s[0] == '#' {
        unhashed(s.drop_first())
    } else {
        s
    }
}

/// How a channel is identified, however it was written.
pub open spec fn key_of(channel: Seq<char>) -> Seq<char> {
    text::lower_text(unhashed(channel))
}

/// How a channel is identified in [`Settings::channel_prefs`]: Twitch logins
/// are case-insensitive, and a name may come with the hash of a chat room.
pub fn channel_key(channel: &str) -> (r: String)
    ensures
        r@ == key_of(channel@),
{
    let chars = text::chars_of(channel);
    let n: usize = chars.len();
    let mut lo: usize = 0;
    assert(chars@.skip(0) =~= chars@);
    while lo < n && chars[lo] == '#'
        invariant
            lo <= n,
            n == chars@.len(),
            unhashed(chars@.skip(lo as int)) == unhashed(chars@),
        decreases n - lo,
    {
        assert(chars@.skip(lo as int).drop_first() =~= chars@.skip(lo + 1));
        lo += 1;
    }
    let rest = slice_subrange(chars.as_slice(), lo, n);
    assert(rest@ =~= chars@.skip(lo as int));
    let small = text::lowered_chars(rest);
    text::string_of(small.as_slice())
}

/// Writing a channel's key again changes nothing, so every spelling of one
/// channel has one key.
pub proof fn law_key_is_settled(channel: Seq<char>)
    ensures
        key_of(key_of(channel)) == key_of(channel),
    decreases channel.len(),
{
    let u = unhashed(channel);
    lemma_unhashed(channel);
    let k = text::lower_text(u);
    assert(unhashed(k) == k) by {
        if k.len() > 0 {
            assert(k[0] == text::lower(u[0]));
        }
    }
    assert(text::lower_text(k) =~= k);
}

proof fn lemma_unhashed(s: Seq<char>)
    ensures
        unhashed(s).len() > 0 ==> unhashed(s)[0] != '#',
    decreases s.len(),
{
    if s.len() > 0 && s[0] == '#' {
        lemma_unhashed(s.drop_first());
    }
}

/// A channel is the same channel in capitals and behind a hash.
pub proof fn law_key_ignores_case_and_hash(channel: Seq<char>)
    ensures
        key_of(text::lower_text(channel)) == key_of(channel),
        key_of(seq!['#'] + channel) == key_of(channel),
    decreases channel.len(),
{
    assert((seq!['#'] + channel).drop_first() =~= channel);
    let l = text::lower_text(channel);
    if channel.len() > 0 {
        assert(l[0] == text::lower(channel[0]));
        if channel[0] == '#' {
            law_key_ignores_case_and_hash(channel.drop_first());
            assert(l.drop_first() =~= text::lower_text(channel.drop_first()));
        } else {
            assert(l[0] != '#');
            assert(text::lower_text(l) =~= l);
        }
    } else {
        assert(l =~= channel);
    }
}

// ── Defaults ─────────────────────────────────────────────────────────

impl Default for QualityPreference {
    fn default() -> (r: QualityPreference)
        ensures
            r is Auto,
    {
        QualityPreference::Auto
    }
}

impl Default for OAuthTokens {
    fn default() -> (r: OAuthTokens)
        ensures
            r.access_token@.len() == 0,
            r.refresh_token@.len() == 0,
            r.expires_at == 0,
            r.user_id@.len() == 0,
            r.login@.len() == 0,
    {
        OAuthTokens {
            access_token: String::new(),
            refresh_token: String::new(),
            expires_at: 0,
            user_id: String::new(),
            login: String::new(),
        }
    }
}

impl Default for Credentials {
    fn default() -> (r: Credentials)
        ensures
            r == (Credentials { client_id: None, auth_token: None, oauth: None }),
    {
        Credentials { client_id: None, auth_token: None, oauth: None }
    }
}

impl Default for ChannelPrefs {
    fn default() -> (r: ChannelPrefs)
        ensures
            r.volume is None,
    {
        ChannelPrefs { volume: None }
    }
}

impl Default for Settings {
    fn default() -> (r: Settings)
        ensures
            r.quality is Auto,
            r.volume == 10,
            r.channel_prefs@.len() == 0,
            r.credentials == (Credentials { client_id: None, auth_token: None, oauth: None }),
            r.last_channel is None,
            r.chat_history == 100,
            r.sound(),
    {
        Settings {
            quality: QualityPreference::Auto,
            volume: 10,
            channel_prefs: Vec::new(),
            credentials: Credentials { client_id: None, auth_token: None, oauth: None },
            last_channel: None,
            chat_history: 100,
        }
    }
}

// ── Levels ───────────────────────────────────────────────────────────

/// What is remembered under a key.
pub open spec fn recalled(list: Seq<ChannelEntry>, key: Seq<char>) -> Option<ChannelPrefs>
    decreases list.len(),
{
    if list.len() == 0 {
        None
    } else if list[0].key@ == key {
        Some(list[0].prefs)
    } else {
        recalled(list.drop_first(), key)
    }
}

/// The lesser of a level and the loudest there is.
pub open spec fn level(volume: u8) -> u8 {
    if volume <= 100 {
        volume
    } else {
        100
    }
}

impl Settings {
    /// No channel is remembered twice.
    pub open spec fn sound(self) -> bool {
        forall|i: int, j: int|
            0 <= i < j < self.channel_prefs@.len() ==> (#[trigger] self.channel_prefs@[i]).key@ != (
            #[trigger] self.channel_prefs@[j]).key@
    }

    /// The level that a channel starts at.
    pub open spec fn starts_at(self, channel: Seq<char>) -> u8 {
        level(
            match recalled(self.channel_prefs@, key_of(channel)) {
                Some(prefs) => match prefs.volume {
                    Some(volume) => volume,
                    None => self.volume,
                },
                None => self.volume,
            },
        )
    }

    /// The level `channel` should start at. Held to what there is on the way
    /// out as well as in: the file can be edited by hand.
    pub fn volume_for(&self, channel: &str) -> (r: u8)
        ensures
            r == self.starts_at(channel@),
    {
        let key = channel_key(channel);
        let mut volume: u8 = self.volume;
        match find_entry(&self.channel_prefs, key.as_str()) {
            Some(i) => match self.channel_prefs[i].prefs.volume {
                Some(own) => {
                    volume = own;
                },
                None => {},
            },
            None => {},
        }
        if volume <= 100 {
            volume
        } else {
            100
        }
    }

    /// These settings with a level remembered for one channel, which becomes
    /// the default too unless it is silence.
    pub open spec fn with_level(self, channel: Seq<char>, volume: u8, after: Settings) -> bool {
        &&& after == (Settings {
            volume: if level(volume) > 0 {
                level(volume)
            } else {
                self.volume
            },
            channel_prefs: after.channel_prefs,
            ..self
        })
        &&& recalled(after.channel_prefs@, key_of(channel)) == Some(
            ChannelPrefs { volume: Some(level(volume)) },
        )
        &&& forall|key: Seq<char>|
            key != key_of(channel) ==> #[trigger] recalled(after.channel_prefs@, key) == recalled(
                self.channel_prefs@,
                key,
            )
    }

    /// Remember `volume` for `channel`, and carry it forward as the default.
    ///
    /// Returns whether anything actually changed, so that a caller driven by a
    /// slider does not rewrite the file for a value it already holds. Muting is
    /// the one level that does not become the default.
    pub fn set_volume_for(&mut self, channel: &str, volume: u8) -> (r: bool)
        requires
            old(self).sound(),
        ensures
            final(self).sound(),
            old(self).with_level(channel@, volume, *final(self)),
            r == (final(self).volume != old(self).volume || recalled(
                old(self).channel_prefs@,
                key_of(channel@),
            ) != Some(ChannelPrefs { volume: Some(level(volume)) })),
    {
        let volume: u8 = if volume <= 100 {
            volume
        } else {
            100
        };
        let mut changed = false;
        if volume > 0 && self.volume != volume {
            self.volume = volume;
            changed = true;
        }
        let key = channel_key(channel);
        let ghost before = self.channel_prefs@;
        let prefs = ChannelPrefs { volume: Some(volume) };
        match find_entry(&self.channel_prefs, key.as_str()) {
            Some(i) => {
                let entry_key = self.channel_prefs[i].key.clone();
                let same = match self.channel_prefs[i].prefs.volume {
                    Some(own) => own == volume,
                    None => false,
                };
                if !same {
                    changed = true;
                }
                self.channel_prefs.set(i, ChannelEntry { key: entry_key, prefs });
                proof {
                    let after = self.channel_prefs@;
                    assert forall|k: Seq<char>| #[trigger] recalled(after, k) == (if k == key@ {
                        Some(prefs)
                    } else {
                        recalled(before, k)
                    }) by {
                        lemma_recalled_updated(before, i as int, after[i as int], k);
                    }
                }
            },
            None => {
                changed = true;
                self.channel_prefs.push(ChannelEntry { key, prefs });
                proof {
                    let after = self.channel_prefs@;
                    assert forall|k: Seq<char>| #[trigger] recalled(after, k) == (if k == key@ {
                        Some(prefs)
                    } else {
                        recalled(before, k)
                    }) by {
                        lemma_recalled_pushed(before, after.last(), k);
                    }
                    lemma_recalled(before, key@);
                }
            },
        }
        changed
    }
}

proof fn lemma_recalled(list: Seq<ChannelEntry>, key: Seq<char>)
    ensures
        recalled(list, key) is None <==> forall|i: int|
            0 <= i < list.len() ==> (#[trigger] list[i]).key@ != key,
    decreases list.len(),
{
    if list.len() > 0 {
        let rest = list.drop_first();
        lemma_recalled(rest, key);
        if list[0].key@ != key {
            if recalled(list, key) is None {
                assert forall|i: int| 0 <= i < list.len() implies (#[trigger] list[i]).key@
                    != key by {
                    if i > 0 {
                        assert(rest[i - 1].key@ != key);
                    }
                }
            } else {
                let i = choose|i: int| 0 <= i < rest.len() && (#[trigger] rest[i]).key@ == key;
                assert(list[i + 1].key@ == key);
            }
        }
    }
}

proof fn lemma_recalled_pushed(list: Seq<ChannelEntry>, entry: ChannelEntry, key: Seq<char>)
    ensures
        recalled(list.push(entry), key) == (if recalled(list, key) is Some {
            recalled(list, key)
        } else if key == entry.key@ {
            Some(entry.prefs)
        } else {
            None
        }),
    decreases list.len(),
{
    let all = list.push(entry);
    if list.len() == 0 {
        assert(all.drop_first() =~= Seq::empty());
        assert(recalled(all.drop_first(), key) is None);
    } else {
        assert(all[0] == list[0]);
        assert(all.drop_first() =~= list.drop_first().push(entry));
        lemma_recalled_pushed(list.drop_first(), entry, key);
    }
}

proof fn lemma_recalled_updated(list: Seq<ChannelEntry>, i: int, entry: ChannelEntry, key: Seq<char>)
    requires
        0 <= i < list.len(),
        entry.key@ == list[i].key@,
        forall|k: int| 0 <= k < i ==> (#[trigger] list[k]).key@ != entry.key@,
    ensures
        recalled(list.update(i, entry), key) == (if key == entry.key@ {
            Some(entry.prefs)
        } else {
            recalled(list, key)
        }),
    decreases list.len(),
{
    let all = list.update(i, entry);
    if i == 0 {
        assert(all.drop_first() =~= list.drop_first());
    } else {
        assert(all[0] == list[0]);
        assert(all.drop_first() =~= list.drop_first().update(i - 1, entry));
        assert forall|k: int| 0 <= k < i - 1 implies (#[trigger] list.drop_first()[k]).key@
            != entry.key@ by {
            assert(list[k + 1].key@ != entry.key@);
        }
        lemma_recalled_updated(list.drop_first(), i - 1, entry, key);
    }
}

fn find_entry(list: &Vec<ChannelEntry>, key: &str) -> (r: Option<usize>)
    ensures
        match r {
            Some(i) => {
                &&& i < list@.len()
                &&& list@[i as int].key@ == key@
                &&& forall|k: int| 0 <= k < i ==> (#[trigger] list@[k]).key@ != key@
                &&& recalled(list@, key@) == Some(list@[i as int].prefs)
            },
            None => {
                &&& recalled(list@, key@) is None
                &&& forall|k: int| 0 <= k < list@.len() ==> (#[trigger] list@[k]).key@ != key@
            },
        },
{
    let mut i: usize = 0;
    assert(list@.skip(0) =~= list@);
    while i < list.len()
        invariant
            i <= list@.len(),
            recalled(list@.skip(i as int), key@) == recalled(list@, key@),
            forall|k: int| 0 <= k < i ==> (#[trigger] list@[k]).key@ != key@,
        decreases list.len() - i,
    {
        assert(list@.skip(i as int)[0] == list@[i as int]);
        assert(list@.skip(i as int).drop_first() =~= list@.skip(i + 1));
        if text::same(list[i].key.as_str(), key) {
            return Some(i);
        }
        i += 1;
    }
    None
}

/// Coming back to a channel finds it where it was left, however its name is
/// written, and no other channel that has a level of its own moves.
pub proof fn law_a_level_is_remembered(
    before: Settings,
    channel: Seq<char>,
    volume: u8,
    after: Settings,
    other: Seq<char>,
)
    requires
        before.with_level(channel, volume, after),
    ensures
        key_of(other) == key_of(channel) ==> after.starts_at(other) == level(volume),
        key_of(other) != key_of(channel) && (match recalled(before.channel_prefs@, key_of(other)) {
            Some(prefs) => prefs.volume is Some,
            None => false,
        }) ==> after.starts_at(other) == before.starts_at(other),
{
}

/// Muting one stream never makes silence the default: a channel that was never
/// opened starts where it would have started.
pub proof fn law_a_mute_stays_with_its_channel(
    before: Settings,
    channel: Seq<char>,
    after: Settings,
    other: Seq<char>,
)
    requires
        before.with_level(channel, 0, after),
        key_of(other) != key_of(channel),
    ensures
        after.starts_at(channel) == 0,
        after.volume == before.volume,
        after.starts_at(other) == before.starts_at(other),
{
}

/// Setting a level that is already set changes nothing.
pub proof fn law_a_level_is_set_once(
    before: Settings,
    channel: Seq<char>,
    volume: u8,
    once: Settings,
    twice: Settings,
)
    requires
        before.with_level(channel, volume, once),
        once.with_level(channel, volume, twice),
    ensures
        twice.volume == once.volume,
        forall|key: Seq<char>| #[trigger]
            recalled(twice.channel_prefs@, key) == recalled(once.channel_prefs@, key),
{
}

// ── What is written down ─────────────────────────────────────────────

/// Settings with another sign-in.
pub open spec fn signed_in_as(settings: Settings, oauth: Option<OAuthTokens>) -> Settings {
    Settings { credentials: Credentials { oauth, ..settings.credentials }, ..settings }
}

impl Settings {
    /// What to write for these settings, given what is stored: the sign-in on
    /// disk is the worker's, and saving a preference from a copy taken at
    /// launch must not put an older one back.
    pub fn save_preferences(self, stored: Settings) -> (r: Settings)
        ensures
            r == signed_in_as(self, stored.credentials.oauth),
    {
        let mut out = self;
        out.credentials.oauth = stored.credentials.oauth;
        out
    }

    /// What to write for these settings where the sign-in is to be forgotten:
    /// tokens are issued against one client id, and are useless with another.
    pub fn save_forgetting_sign_in(self) -> (r: Settings)
        ensures
            r == signed_in_as(self, None),
    {
        let mut out = self;
        out.credentials.oauth = None;
        out
    }

    /// What to write for a new sign-in, given what is stored: every preference
    /// that was changed meanwhile stays.
    pub fn save_sign_in(stored: Settings, oauth: Option<OAuthTokens>) -> (r: Settings)
        ensures
            r == signed_in_as(stored, oauth),
    {
        let mut out = stored;
        out.credentials.oauth = oauth;
        out
    }
}

/// Whichever of the two saves last, the window or the worker, neither undoes
/// the other: the preferences are the window's and the sign-in the worker's.
pub proof fn law_saves_do_not_undo_each_other(
    ui: Settings,
    stored: Settings,
    oauth: Option<OAuthTokens>,
)
    ensures
        ({
            // The worker signs in, and then the window saves a preference.
            let signed = signed_in_as(stored, oauth);
            signed_in_as(ui, signed.credentials.oauth) == signed_in_as(ui, oauth)
        }),
        ({
            // The window saves a preference, and then the worker signs in.
            let saved = signed_in_as(ui, stored.credentials.oauth);
            signed_in_as(saved, oauth) == signed_in_as(ui, oauth)
        }),
{
}

/// What a save from the settings sheet changes.
#[derive(Debug, Clone, Copy, PartialEq, Eq)]
pub struct Changes {
    /// Another application: the sign-in, and everything fetched with it, go.
    pub client_id: bool,
    /// Another quality or cookie: every stream starts over.
    pub stream: bool,
}

/// Whether two texts that may not be there read the same.
pub open spec fn reads_same(a: Option<String>, b: Option<String>) -> bool {
    match (a, b) {
        (Some(a), Some(b)) => a@ == b@,
        (None, None) => true,
        _ => false,
    }
}

/// Whether two preferences are the same.
pub open spec fn same_preference(a: QualityPreference, b: QualityPreference) -> bool {
    match (a, b) {
        (QualityPreference::Auto, QualityPreference::Auto) => true,
        (QualityPreference::Fixed(a), QualityPreference::Fixed(b)) => a@ == b@,
        _ => false,
    }
}

fn same_option(a: &Option<String>, b: &Option<String>) -> (r: bool)
    ensures
        r == reads_same(*a, *b),
{
    match (a, b) {
        (Some(a), Some(b)) => text::same(a.as_str(), b.as_str()),
        (None, None) => true,
        _ => false,
    }
}

fn same_quality(a: &QualityPreference, b: &QualityPreference) -> (r: bool)
    ensures
        r == same_preference(*a, *b),
{
    match (a, b) {
        (QualityPreference::Auto, QualityPreference::Auto) => true,
        (QualityPreference::Fixed(a), QualityPreference::Fixed(b)) => text::same(
            a.as_str(),
            b.as_str(),
        ),
        _ => false,
    }
}

pub fn changes(before: &Settings, updated: &Settings) -> (r: Changes)
    ensures
        r.client_id == !reads_same(before.credentials.client_id, updated.credentials.client_id),
        r.stream == (!same_preference(before.quality, updated.quality) || !reads_same(
            before.credentials.auth_token,
            updated.credentials.auth_token,
        )),
{
    Changes {
        client_id: !same_option(&before.credentials.client_id, &updated.credentials.client_id),
        stream: !same_quality(&before.quality, &updated.quality) || !same_option(
            &before.credentials.auth_token,
            &updated.credentials.auth_token,
        ),
    }
}

/// A level is held to the loudest there is; a channel without one of its own
/// starts at the default, and one with one at that, however its name is written.
pub proof fn law_a_channel_starts_at_its_level(
    settings: Settings,
    channel: Seq<char>,
    prefs: ChannelPrefs,
)
    ensures
        settings.starts_at(channel) <= 100,
        recalled(settings.channel_prefs@, key_of(channel)) is None && settings.volume <= 100
            ==> settings.starts_at(channel) == settings.volume,
        recalled(settings.channel_prefs@, key_of(channel)) == Some(prefs) && prefs.volume is Some
            && prefs.volume->0 <= 100 ==> settings.starts_at(channel) == prefs.volume->0,
        recalled(settings.channel_prefs@, key_of(channel)) == Some(prefs) && prefs.volume is None
            && settings.volume <= 100 ==> settings.starts_at(channel) == settings.volume,
{
}

/// What is remembered of a channel is what the list has for its key.
pub proof fn law_what_is_remembered_is_in_the_list(settings: Settings, i: int, key: Seq<char>)
    requires
        settings.sound(),
        0 <= i < settings.channel_prefs@.len(),
    ensures
        recalled(settings.channel_prefs@, settings.channel_prefs@[i].key@) == Some(
            settings.channel_prefs@[i].prefs,
        ),
        recalled(settings.channel_prefs@, key) is None <==> forall|k: int|
            0 <= k < settings.channel_prefs@.len() ==> (#[trigger] settings.channel_prefs@[k]).key@
                != key,
{
    lemma_recalled(settings.channel_prefs@, key);
    lemma_recalled_at(settings.channel_prefs@, i);
}

proof fn lemma_recalled_at(list: Seq<ChannelEntry>, i: int)
    requires
        0 <= i < list.len(),
        forall|a: int, b: int|
            0 <= a < b < list.len() ==> (#[trigger] list[a]).key@ != (#[trigger] list[b]).key@,
    ensures
        recalled(list, list[i].key@) == Some(list[i].prefs),
    decreases i,
{
    if i > 0 {
        let rest = list.drop_first();
        assert(list[0].key@ != list[i].key@);
        assert forall|a: int, b: int| 0 <= a < b < rest.len() implies (#[trigger] rest[a]).key@ != (
        #[trigger] rest[b]).key@ by {
            assert(list[a + 1].key@ != list[b + 1].key@);
        }
        lemma_recalled_at(rest, i - 1);
    }
}

/// A save changes something exactly where what it is about reads otherwise.
pub proof fn law_a_change_is_what_reads_otherwise(a: String, b: String)
    ensures
        reads_same(None, None),
        !reads_same(Some(a), None) && !reads_same(None, Some(b)),
        reads_same(Some(a), Some(b)) <==> a@ == b@,
        same_preference(QualityPreference::Auto, QualityPreference::Auto),
        !same_preference(QualityPreference::Auto, QualityPreference::Fixed(b)),
        !same_preference(QualityPreference::Fixed(a), QualityPreference::Auto),
        same_preference(QualityPreference::Fixed(a), QualityPreference::Fixed(b)) <==> a@ == b@,
{
}

/// A sign-in goes into the settings without touching anything else in them.
pub proof fn law_a_sign_in_touches_nothing_else(settings: Settings, oauth: Option<OAuthTokens>)
    ensures
        signed_in_as(settings, oauth).credentials.oauth == oauth,
        signed_in_as(settings, oauth).credentials.client_id == settings.credentials.client_id,
        signed_in_as(settings, oauth).credentials.auth_token == settings.credentials.auth_token,
        signed_in_as(settings, oauth).quality == settings.quality,
        signed_in_as(settings, oauth).volume == settings.volume,
        signed_in_as(settings, oauth).channel_prefs == settings.channel_prefs,
        signed_in_as(settings, oauth).last_channel == settings.last_channel,
        signed_in_as(settings, oauth).chat_history == settings.chat_history,
{
}

/// A level that can be heard becomes the one at which every channel starts that
/// has none of its own.
pub proof fn law_the_last_level_is_the_next_channels(
    before: Settings,
    channel: Seq<char>,
    volume: u8,
    after: Settings,
    other: Seq<char>,
)
    requires
        before.with_level(channel, volume, after),
        0 < volume <= 100,
        key_of(other) != key_of(channel),
        recalled(before.channel_prefs@, key_of(other)) is None,
    ensures
        after.starts_at(other) == volume,
        after.volume == volume,
{
}

} // verus!
