//! What somebody typed or pasted, read as a place on Twitch.
//!
//! A channel arrives as a login, a `#login`, a `twitch.tv/login` or the whole
//! `https://www.twitch.tv/login`; a recording as its `/videos/<id>` link,
//! sometimes with a `?t=1h2m3s` in it saying where to start.

use crate::settings;
use crate::text;
use vstd::prelude::*;
use vstd::slice::*;

verus! {

/// Somewhere on Twitch the app can open.
#[derive(Debug, Clone, PartialEq, Eq)]
pub enum Target {
    /// A channel, by its login, already normalised.
    Channel(String),
    /// A recording, by its id, and how far in to start if the link said.
    Video { id: String, start_secs: Option<u64> },
}

/// A [`Target`] with its texts as sequences.
pub enum TargetView {
    Channel(Seq<char>),
    Video { id: Seq<char>, start_secs: Option<u64> },
}

impl View for Target {
    type V = TargetView;

    open spec fn view(&self) -> TargetView {
        match *self {
            Target::Channel(login) => TargetView::Channel(login@),
            Target::Video { id, start_secs } => TargetView::Video { id: id@, start_secs },
        }
    }
}

// ── Logins ───────────────────────────────────────────────────────────

/// A character that a login may hold.
pub open spec fn is_login_char(c: char) -> bool {
    text::is_digit(c) || text::is_lower(c) || text::is_upper(c) || c == '_'
}

/// A login: letters, digits and underscores, and at least one of them.
pub open spec fn login_like(s: Seq<char>) -> bool {
    s.len() > 0 && forall|i: int| 0 <= i < s.len() ==> is_login_char(#[trigger] s[i])
}

fn login_char(c: char) -> (r: bool)
    ensures
        r == is_login_char(c),
{
    let n: u32 = c as u32;
    (48 <= n && n <= 57) || (97 <= n && n <= 122) || (65 <= n && n <= 90) || c == '_'
}

/// Whether `text` is a login.
pub fn is_login(text: &str) -> (r: bool)
    ensures
        r == login_like(text@),
{
    let chars = text::chars_of(text);
    let mut i: usize = 0;
    while i < chars.len()
        invariant
            chars@ == text@,
            i <= chars@.len(),
            forall|k: int| 0 <= k < i ==> is_login_char(#[trigger] chars@[k]),
        decreases chars.len() - i,
    {
        if !login_char(chars[i]) {
            return false;
        }
        i += 1;
    }
    chars.len() > 0
}

// ── Durations ────────────────────────────────────────────────────────

/// How many digits `s` begins with.
pub open spec fn digit_run(s: Seq<char>) -> int
    decreases s.len(),
{
    if s.len() > 0 && text::is_digit(s[0]) {
        1 + digit_run(s.drop_first())
    } else {
        0
    }
}

proof fn lemma_digit_run(s: Seq<char>, n: int)
    requires
        0 <= n <= s.len(),
        forall|k: int| 0 <= k < n ==> text::is_digit(#[trigger] s[k]),
        n < s.len() ==> !text::is_digit(s[n]),
    ensures
        digit_run(s) == n,
    decreases s.len(),
{
    if n > 0 {
        let t = s.drop_first();
        assert(text::is_digit(s[0]));
        assert forall|k: int| 0 <= k < n - 1 implies text::is_digit(#[trigger] t[k]) by {
            assert(text::is_digit(s[k + 1]));
        }
        lemma_digit_run(t, n - 1);
    }
}

/// The seconds in one of a unit, for the three units there are.
pub open spec fn unit_secs(c: char) -> Option<nat> {
    if c == 'h' {
        Some(3600nat)
    } else if c == 'm' {
        Some(60nat)
    } else if c == 's' {
        Some(1nat)
    } else {
        None
    }
}

/// The sum of a row of spans such as `1h2m3s`: digits and a unit, again and
/// again, with nothing else. No span at all is zero.
pub open spec fn spans(s: Seq<char>) -> Option<nat>
    decreases s.len(),
{
    let n = digit_run(s);
    if s.len() == 0 {
        Some(0nat)
    } else if 0 < n < s.len() {
        match (unit_secs(s[n]), spans(s.skip(n + 1))) {
            (Some(unit), Some(rest)) => Some(text::digits_value(s.take(n)) * unit + rest),
            _ => None,
        }
    } else {
        None
    }
}

/// A duration written the way Twitch writes one, in seconds.
pub open spec fn duration(s: Seq<char>) -> Option<u64> {
    match spans(s) {
        Some(total) if s.len() > 0 && total <= u64::MAX => Some(total as u64),
        _ => None,
    }
}

/// `a` seconds and then whatever the rest comes to.
spec fn and_then_spans(a: nat, rest: Option<nat>) -> Option<nat> {
    match rest {
        Some(t) => Some(a + t),
        None => None,
    }
}

/// Read `text` as a duration such as `1h2m3s`.
pub fn parse_duration(text: &str) -> (r: Option<u64>)
    ensures
        r == duration(text@),
{
    let chars = text::chars_of(text);
    duration_of(chars.as_slice())
}

fn duration_of(s: &[char]) -> (r: Option<u64>)
    ensures
        r == duration(s@),
{
    let n: usize = s.len();
    if n == 0 {
        return None;
    }
    let mut i: usize = 0;
    let mut total: u64 = 0;
    assert(s@.skip(0) =~= s@);
    while i < n
        invariant
            0 < n,
            n == s@.len(),
            i <= n,
            and_then_spans(total as nat, spans(s@.skip(i as int))) == spans(s@),
        decreases n - i,
    {
        let ghost rest = s@.skip(i as int);
        let mut j: usize = i;
        while j < n && text::digit(s[j])
            invariant
                i <= j <= n,
                n == s@.len(),
                forall|k: int| i <= k < j ==> text::is_digit(#[trigger] s@[k]),
            decreases n - j,
        {
            j += 1;
        }
        proof {
            lemma_digit_run(rest, j - i);
        }
        if j == i || j == n {
            return None;
        }
        let unit: u64 = if s[j] == 'h' {
            3600
        } else if s[j] == 'm' {
            60
        } else if s[j] == 's' {
            1
        } else {
            return None;
        };
        let digits = slice_subrange(s, i, j);
        assert(digits@ =~= rest.take(j - i));
        assert(s@.skip(j + 1) =~= rest.skip(j - i + 1));
        assert(text::all_digits(digits@));
        let ghost value = text::digits_value(digits@);
        assert(value * 3600 >= value && value * 60 >= value && value * 1 >= value);
        let count: u64 = match text::number_of(digits, u64::MAX) {
            Some(count) => count,
            None => {
                return None;
            },
        };
        assert(value == count);
        match count.checked_mul(unit) {
            Some(secs) => match total.checked_add(secs) {
                Some(sum) => {
                    total = sum;
                },
                None => {
                    return None;
                },
            },
            None => {
                return None;
            },
        }
        i = j + 1;
    }
    assert(s@.skip(i as int) =~= Seq::<char>::empty());
    Some(total)
}

// ── Links ────────────────────────────────────────────────────────────

/// The hosts a Twitch link comes with.
pub open spec fn is_host(s: Seq<char>) -> bool {
    s == "twitch.tv"@ || s == "www.twitch.tv"@ || s == "m.twitch.tv"@
}

/// The site's own pages that sit where a login would in a link.
pub open spec fn is_reserved(s: Seq<char>) -> bool {
    ||| s == "directory"@
    ||| s == "videos"@
    ||| s == "search"@
    ||| s == "settings"@
    ||| s == "subscriptions"@
    ||| s == "downloads"@
    ||| s == "drops"@
    ||| s == "turbo"@
}

/// `s` without the scheme of a web link.
pub open spec fn without_scheme(s: Seq<char>) -> Seq<char> {
    if text::begins(s, "https://"@) {
        s.skip("https://"@.len() as int)
    } else if text::begins(s, "http://"@) {
        s.skip("http://"@.len() as int)
    } else {
        s
    }
}

/// The pieces of a path that hold something.
pub open spec fn nonempty(list: Seq<Seq<char>>) -> Seq<Seq<char>>
    decreases list.len(),
{
    if list.len() == 0 {
        Seq::empty()
    } else if list.last().len() > 0 {
        nonempty(list.drop_last()).push(list.last())
    } else {
        nonempty(list.drop_last())
    }
}

/// What stands behind `t=` in the first pair that begins with it.
pub open spec fn start_text(pairs: Seq<Seq<char>>) -> Option<Seq<char>>
    decreases pairs.len(),
{
    if pairs.len() == 0 {
        None
    } else if text::begins(pairs[0], "t="@) {
        Some(pairs[0].skip("t="@.len() as int))
    } else {
        start_text(pairs.drop_first())
    }
}

/// Where a link's query says to start.
pub open spec fn start_in(query: Seq<char>) -> Option<u64> {
    match start_text(text::split(query, '&')) {
        Some(t) => duration(t),
        None => None,
    }
}

/// `s` as a channel.
pub open spec fn as_channel(s: Seq<char>) -> Option<TargetView> {
    if login_like(settings::key_of(s)) {
        Some(TargetView::Channel(settings::key_of(s)))
    } else {
        None
    }
}

/// A recording's id, which older links write with a `v` before it.
pub open spec fn bare_id(s: Seq<char>) -> Seq<char> {
    if s.len() > 0 && s[0] == 'v' {
        s.drop_first()
    } else {
        s
    }
}

/// `id` as a recording.
pub open spec fn as_video(id: Seq<char>, query: Seq<char>) -> Option<TargetView> {
    let bare = bare_id(id);
    if bare.len() > 0 && text::all_digits(bare) {
        Some(TargetView::Video { id: bare, start_secs: start_in(query) })
    } else {
        None
    }
}

/// The pieces of a link's path, read.
pub open spec fn as_path(parts: Seq<Seq<char>>, query: Seq<char>) -> Option<TargetView> {
    if parts.len() == 2 && parts[0] == "videos"@ {
        as_video(parts[1], query)
    } else if parts.len() >= 3 && (parts[1] == "video"@ || parts[1] == "v"@) {
        as_video(parts[2], query)
    } else if parts.len() == 1 || (parts.len() == 2 && parts[1] == "videos"@) {
        if is_reserved(text::lower_text(parts[0])) {
            None
        } else {
            as_channel(parts[0])
        }
    } else {
        None
    }
}

/// What `typed` names.
pub open spec fn reading(typed: Seq<char>) -> Option<TargetView> {
    let s = text::trim(typed);
    let rest = without_scheme(s);
    let path = text::tail(rest, '/');
    if is_host(text::lower_text(text::head(rest, '/'))) {
        as_path(
            nonempty(text::split(text::head(path, '?'), '/')),
            text::tail(path, '?'),
        )
    } else if s.contains('/') || s.contains('.') {
        None
    } else {
        as_channel(s)
    }
}

fn host(s: &[char]) -> (r: bool)
    ensures
        r == is_host(s@),
{
    text::spells(s, "twitch.tv") || text::spells(s, "www.twitch.tv") || text::spells(
        s,
        "m.twitch.tv",
    )
}

fn reserved(s: &[char]) -> (r: bool)
    ensures
        r == is_reserved(s@),
{
    text::spells(s, "directory") || text::spells(s, "videos") || text::spells(s, "search")
        || text::spells(s, "settings") || text::spells(s, "subscriptions") || text::spells(
        s,
        "downloads",
    ) || text::spells(s, "drops") || text::spells(s, "turbo")
}

fn strip_scheme<'a>(s: &'a [char]) -> (r: &'a [char])
    ensures
        r@ == without_scheme(s@),
{
    let secure = text::chars_of("https://");
    let plain = text::chars_of("http://");
    let n: usize = s.len();
    let r = if text::begins_with(s, secure.as_slice()) {
        slice_subrange(s, secure.len(), n)
    } else if text::begins_with(s, plain.as_slice()) {
        slice_subrange(s, plain.len(), n)
    } else {
        s
    };
    assert(r@ =~= without_scheme(s@));
    r
}

fn keep_nonempty(list: &Vec<Vec<char>>) -> (r: Vec<Vec<char>>)
    ensures
        text::pieces(r@) == nonempty(text::pieces(list@)),
{
    let mut out: Vec<Vec<char>> = Vec::new();
    let mut i: usize = 0;
    let ghost all = text::pieces(list@);
    assert(text::pieces(out@) =~= nonempty(all.take(0)));
    while i < list.len()
        invariant
            all == text::pieces(list@),
            i <= list@.len(),
            text::pieces(out@) == nonempty(all.take(i as int)),
        decreases list.len() - i,
    {
        let ghost held = out@;
        proof {
            assert(all.take(i + 1).drop_last() =~= all.take(i as int));
            assert(all.take(i + 1).last() == list@[i as int]@);
        }
        if list[i].len() > 0 {
            let piece = slice_to_vec(list[i].as_slice());
            out.push(piece);
            assert(text::pieces(out@) =~= text::pieces(held).push(list@[i as int]@));
        }
        i += 1;
    }
    assert(all.take(i as int) =~= all);
    out
}

fn start_of(query: &[char]) -> (r: Option<u64>)
    ensures
        r == start_in(query@),
{
    let pairs = text::split_at_each(query, '&');
    let mark = text::chars_of("t=");
    let ghost all = text::pieces(pairs@);
    let mut i: usize = 0;
    assert(all.skip(0) =~= all);
    while i < pairs.len()
        invariant
            all == text::pieces(pairs@),
            all == text::split(query@, '&'),
            mark@ == "t="@,
            i <= pairs@.len(),
            start_text(all.skip(i as int)) == start_text(all),
        decreases pairs.len() - i,
    {
        let pair = pairs[i].as_slice();
        assert(all.skip(i as int)[0] == pair@);
        assert(all.skip(i as int).drop_first() =~= all.skip(i + 1));
        if text::begins_with(pair, mark.as_slice()) {
            let value = slice_subrange(pair, mark.len(), pair.len());
            assert(value@ =~= pair@.skip("t="@.len() as int));
            return duration_of(value);
        }
        i += 1;
    }
    None
}

fn channel(s: &[char]) -> (r: Option<Target>)
    ensures
        (match r {
            Some(t) => as_channel(s@) == Some(t@),
            None => as_channel(s@) is None,
        }),
{
    let name = text::string_of(s);
    let login = settings::channel_key(name.as_str());
    if is_login(login.as_str()) {
        Some(Target::Channel(login))
    } else {
        None
    }
}

fn video(id: &[char], query: &[char]) -> (r: Option<Target>)
    ensures
        (match r {
            Some(t) => as_video(id@, query@) == Some(t@),
            None => as_video(id@, query@) is None,
        }),
{
    let bare = if id.len() > 0 && id[0] == 'v' {
        slice_subrange(id, 1, id.len())
    } else {
        id
    };
    assert(bare@ =~= bare_id(id@));
    let mut i: usize = 0;
    while i < bare.len()
        invariant
            bare@ == bare_id(id@),
            i <= bare@.len(),
            forall|k: int| 0 <= k < i ==> text::is_digit(#[trigger] bare@[k]),
        decreases bare.len() - i,
    {
        if !text::digit(bare[i]) {
            return None;
        }
        i += 1;
    }
    if bare.len() == 0 {
        return None;
    }
    Some(Target::Video { id: text::string_of(bare), start_secs: start_of(query) })
}

fn path_target(parts: &Vec<Vec<char>>, query: &[char]) -> (r: Option<Target>)
    ensures
        (match r {
            Some(t) => as_path(text::pieces(parts@), query@) == Some(t@),
            None => as_path(text::pieces(parts@), query@) is None,
        }),
{
    let n: usize = parts.len();
    if n == 2 && text::spells(parts[0].as_slice(), "videos") {
        return video(parts[1].as_slice(), query);
    }
    if n >= 3 && (text::spells(parts[1].as_slice(), "video") || text::spells(
        parts[1].as_slice(),
        "v",
    )) {
        return video(parts[2].as_slice(), query);
    }
    if n == 1 || (n == 2 && text::spells(parts[1].as_slice(), "videos")) {
        let small = text::lowered_chars(parts[0].as_slice());
        if reserved(small.as_slice()) {
            return None;
        }
        return channel(parts[0].as_slice());
    }
    None
}

/// Read `text` as a channel or a recording, or nothing if it is neither.
pub fn parse(text: &str) -> (r: Option<Target>)
    ensures
        (match r {
            Some(t) => reading(text@) == Some(t@),
            None => reading(text@) is None,
        }),
{
    let chars = text::chars_of(text);
    let s = text::trimmed(chars.as_slice());
    let rest = strip_scheme(s);
    let small = text::lowered_chars(text::before(rest, '/'));
    if !host(small.as_slice()) {
        if text::holds(s, '/') || text::holds(s, '.') {
            return None;
        }
        return channel(s);
    }
    let path = text::behind(rest, '/');
    let split = text::split_at_each(text::before(path, '?'), '/');
    let parts = keep_nonempty(&split);
    path_target(&parts, text::behind(path, '?'))
}

// ── Laws ─────────────────────────────────────────────────────────────

/// A channel that comes out of anything typed is a login already normalised,
/// and a recording's id is digits.
pub proof fn law_a_target_is_normal(typed: Seq<char>)
    ensures
        (match reading(typed) {
            Some(TargetView::Channel(login)) => login_like(login) && settings::key_of(login)
                == login,
            Some(TargetView::Video { id, .. }) => id.len() > 0 && text::all_digits(id),
            None => true,
        }),
{
    let s = text::trim(typed);
    let rest = without_scheme(s);
    let path = text::tail(rest, '/');
    let parts = nonempty(text::split(text::head(path, '?'), '/'));
    settings::law_key_is_settled(s);
    if parts.len() > 0 {
        settings::law_key_is_settled(parts[0]);
    }
}

/// A login is neither trimmed nor cut, so it is read as itself.
proof fn lemma_login_stays_whole(login: Seq<char>)
    requires
        login_like(login),
    ensures
        text::trim(login) == login,
        !login.contains('/'),
        !login.contains('.'),
        without_scheme(login) == login,
        text::head(login, '/') == login,
        !is_host(text::lower_text(login)),
{
    assert(is_login_char(login[0]));
    assert(is_login_char(login[login.len() - 1]));
    text::lemma_first(login, '/');
    assert(text::head(login, '/') =~= login);
    reveal_strlit("https://");
    reveal_strlit("http://");
    reveal_strlit("twitch.tv");
    reveal_strlit("www.twitch.tv");
    reveal_strlit("m.twitch.tv");
    assert forall|p: Seq<char>, i: int| #[trigger]
        text::begins(login, p) && 0 <= i < p.len() implies is_login_char(#[trigger] p[i]) by {
        assert(p[i] == login.take(p.len() as int)[i]);
        assert(is_login_char(login[i]));
    }
    if text::begins(login, "https://"@) {
        assert(is_login_char("https://"@[5]));
    }
    if text::begins(login, "http://"@) {
        assert(is_login_char("http://"@[4]));
    }
    let small = text::lower_text(login);
    assert forall|i: int| 0 <= i < small.len() implies #[trigger] small[i] != '.' by {
        assert(is_login_char(login[i]));
    }
    assert("twitch.tv"@[6] == '.');
    assert("www.twitch.tv"@[3] == '.');
    assert("m.twitch.tv"@[1] == '.');
}

/// A bare login names its channel, with or without the hash of a chat room.
pub proof fn law_a_login_is_its_channel(login: Seq<char>)
    requires
        login_like(login),
    ensures
        reading(login) == Some(TargetView::Channel(text::lower_text(login))),
        reading(seq!['#'] + login) == Some(TargetView::Channel(text::lower_text(login))),
{
    lemma_login_stays_whole(login);
    assert(is_login_char(login[0]));
    assert(settings::unhashed(login) == login);
    let small = text::lower_text(login);
    assert forall|i: int| 0 <= i < small.len() implies is_login_char(#[trigger] small[i]) by {
        assert(is_login_char(login[i]));
    }
    let hashed = seq!['#'] + login;
    assert(hashed.drop_first() =~= login);
    assert(is_login_char(login[login.len() - 1]));
    assert(hashed[hashed.len() - 1] == login[login.len() - 1]);
    assert(text::trim(hashed) == hashed);
    assert forall|i: int| 0 <= i < hashed.len() implies #[trigger] hashed[i] != '/' && hashed[i]
        != '.' by {
        if i > 0 {
            assert(is_login_char(login[i - 1]));
        }
    }
    text::lemma_first(hashed, '/');
    assert(text::head(hashed, '/') =~= hashed);
    reveal_strlit("https://");
    reveal_strlit("http://");
    reveal_strlit("twitch.tv");
    reveal_strlit("www.twitch.tv");
    reveal_strlit("m.twitch.tv");
    assert forall|p: Seq<char>| #[trigger] text::begins(hashed, p) && p.len() > 0 implies p[0]
        == '#' by {
        assert(p[0] == hashed.take(p.len() as int)[0]);
    }
    assert(without_scheme(hashed) == hashed);
    assert(text::lower_text(hashed)[0] == '#');
    assert(!is_host(text::lower_text(hashed)));
    assert(settings::unhashed(hashed) == login);
}

/// The ways a link may begin.
pub open spec fn is_scheme(s: Seq<char>) -> bool {
    s == "https://"@ || s == "http://"@ || s == ""@
}

proof fn lemma_no_slash(host: Seq<char>, k: int)
    requires
        is_host(host),
        0 <= k < host.len(),
    ensures
        host[k] != '/',
{
    reveal_strlit("twitch.tv");
    reveal_strlit("www.twitch.tv");
    reveal_strlit("m.twitch.tv");
    if k == 0 {
    } else if k == 1 {
    } else if k == 2 {
    } else if k == 3 {
    } else if k == 4 {
    } else if k == 5 {
    } else if k == 6 {
    } else if k == 7 {
    } else if k == 8 {
    } else if k == 9 {
    } else if k == 10 {
    } else if k == 11 {
    } else {
        assert(k == 12);
    }
}

/// What a Twitch link names is what its path names.
proof fn lemma_link(scheme: Seq<char>, host: Seq<char>, path: Seq<char>)
    requires
        is_scheme(scheme),
        is_host(text::lower_text(host)),
        path.len() > 0,
        !text::is_space(path.last()),
    ensures
        reading(scheme + host + seq!['/'] + path) == as_path(
            nonempty(text::split(text::head(path, '?'), '/')),
            text::tail(path, '?'),
        ),
{
    reveal_strlit("https://");
    reveal_strlit("http://");
    reveal_strlit("");
    reveal_strlit("twitch.tv");
    reveal_strlit("www.twitch.tv");
    reveal_strlit("m.twitch.tv");
    let rest = host + seq!['/'] + path;
    let s = scheme + host + seq!['/'] + path;
    let small = text::lower_text(host);
    assert(s =~= scheme + rest);
    assert(host.len() == small.len() && small.len() >= 9);
    assert(small[0] == 't' || small[0] == 'w' || small[0] == 'm');
    assert(small[0] == text::lower(host[0]));
    assert(host[0] != 'h' && !text::is_space(host[0]));
    assert(s[0] == if scheme.len() > 0 {
        scheme[0]
    } else {
        host[0]
    });
    assert(s.last() == path.last());
    assert(text::trim(s) == s);
    assert(without_scheme(s) == rest) by {
        if scheme == "https://"@ {
            assert(s.take(8) =~= "https://"@);
            assert(s.skip(8) =~= rest);
        } else if scheme == "http://"@ {
            assert(s.take(7) =~= "http://"@);
            assert(s.skip(7) =~= rest);
            if text::begins(s, "https://"@) {
                assert(s.take(8)[4] == 's');
                assert(s[4] == ':');
            }
        } else {
            assert(s =~= rest);
            if text::begins(s, "https://"@) {
                assert(s.take(8)[0] == 'h');
            }
            if text::begins(s, "http://"@) {
                assert(s.take(7)[0] == 'h');
            }
        }
    }
    assert forall|k: int| 0 <= k < host.len() implies rest[k] != '/' by {
        lemma_no_slash(small, k);
        assert(small[k] == text::lower(host[k]));
    }
    text::lemma_first_is(rest, '/', host.len() as int);
    assert(text::head(rest, '/') =~= host);
    assert(text::tail(rest, '/') =~= path);
}

/// What may stand behind a channel in a link to it: nothing, or its page of
/// recordings, with or without a slash behind that.
pub open spec fn is_channel_page(s: Seq<char>) -> bool {
    s == ""@ || s == "/"@ || s == "/videos"@ || s == "/videos/"@
}

/// The query of a link, or nothing.
pub open spec fn is_query(s: Seq<char>) -> bool {
    s.len() == 0 || (s[0] == '?' && !text::is_space(s.last()))
}

/// The first piece of a path, and the pieces behind it.
proof fn lemma_first_piece(piece: Seq<char>, rest: Seq<char>)
    requires
        !piece.contains('/'),
    ensures
        text::split(piece + seq!['/'] + rest, '/') == seq![piece] + text::split(rest, '/'),
{
    let s = piece + seq!['/'] + rest;
    assert forall|k: int| 0 <= k < piece.len() implies s[k] != '/' by {
        assert(piece.contains(piece[k]));
    }
    text::lemma_first_is(s, '/', piece.len() as int);
    assert(text::head(s, '/') =~= piece);
    assert(text::tail(s, '/') =~= rest);
}

/// Pieces that hold nothing are passed over.
proof fn lemma_nonempty_first(piece: Seq<char>, rest: Seq<Seq<char>>)
    ensures
        nonempty(seq![piece] + rest) == (if piece.len() > 0 {
            seq![piece] + nonempty(rest)
        } else {
            nonempty(rest)
        }),
    decreases rest.len(),
{
    let all = seq![piece] + rest;
    if rest.len() == 0 {
        assert(all.drop_last() =~= Seq::<Seq<char>>::empty());
        assert(nonempty(all.drop_last()) =~= Seq::<Seq<char>>::empty());
        assert(nonempty(rest) =~= Seq::<Seq<char>>::empty());
        assert(nonempty(all) =~= (if piece.len() > 0 {
            seq![piece] + nonempty(rest)
        } else {
            nonempty(rest)
        }));
    } else {
        lemma_nonempty_first(piece, rest.drop_last());
        assert(all.drop_last() =~= seq![piece] + rest.drop_last());
        assert(all.last() == rest.last());
        assert(nonempty(all) =~= (if piece.len() > 0 {
            seq![piece] + nonempty(rest)
        } else {
            nonempty(rest)
        }));
    }
}

/// The pieces of a path to a channel.
proof fn lemma_channel_pieces(login: Seq<char>, page: Seq<char>)
    requires
        login_like(login),
        is_channel_page(page),
    ensures
        ({
            let parts = nonempty(text::split(login + page, '/'));
            parts == seq![login] || parts == seq![login, "videos"@]
        }),
{
    reveal_strlit("");
    reveal_strlit("/");
    reveal_strlit("/videos");
    reveal_strlit("/videos/");
    reveal_strlit("videos");
    lemma_login_stays_whole(login);
    let none = Seq::<char>::empty();
    assert(text::split(none, '/') =~= seq![none]);
    assert(seq![none] + Seq::<Seq<char>>::empty() =~= seq![none]);
    assert(nonempty(Seq::<Seq<char>>::empty()) =~= Seq::<Seq<char>>::empty());
    lemma_nonempty_first(none, Seq::empty());
    let videos = "videos"@;
    assert(!videos.contains('/')) by {
        assert forall|k: int| 0 <= k < videos.len() implies videos[k] != '/' by {
            if k == 0 {
            } else if k == 1 {
            } else if k == 2 {
            } else if k == 3 {
            } else if k == 4 {
            } else {
                assert(k == 5);
            }
        }
    }
    if page == ""@ {
        assert(login + page =~= login);
        text::lemma_first(login, '/');
        lemma_only_piece(login);
    } else if page == "/"@ {
        assert(login + page =~= login + seq!['/'] + none);
        lemma_first_piece(login, none);
        lemma_nonempty_first(login, seq![none]);
        assert(seq![login] + Seq::<Seq<char>>::empty() =~= seq![login]);
    } else if page == "/videos"@ {
        assert(login + page =~= login + seq!['/'] + videos);
        lemma_first_piece(login, videos);
        text::lemma_first(videos, '/');
        lemma_only_piece(videos);
        lemma_nonempty_first(login, text::split(videos, '/'));
        assert(seq![login] + seq![videos] =~= seq![login, videos]);
    } else {
        let rest = videos + seq!['/'] + none;
        assert(login + page =~= login + seq!['/'] + rest);
        lemma_first_piece(login, rest);
        lemma_first_piece(videos, none);
        lemma_nonempty_first(login, text::split(rest, '/'));
        lemma_nonempty_first(videos, seq![none]);
        assert(seq![videos] + Seq::<Seq<char>>::empty() =~= seq![videos]);
        assert(seq![login] + seq![videos] =~= seq![login, videos]);
    }
}

/// A link names its channel, whatever it begins with, whichever of Twitch's
/// hosts it has, and with a slash, the channel's page of recordings or a query
/// behind it or not, unless the site has a page of its own under that name.
pub proof fn law_a_link_is_its_channel(
    scheme: Seq<char>,
    host: Seq<char>,
    login: Seq<char>,
    page: Seq<char>,
    query: Seq<char>,
)
    requires
        is_scheme(scheme),
        is_host(text::lower_text(host)),
        login_like(login),
        is_channel_page(page),
        is_query(query),
    ensures
        reading(scheme + host + seq!['/'] + login + page + query) == (if is_reserved(
            text::lower_text(login),
        ) {
            None
        } else {
            Some(TargetView::Channel(text::lower_text(login)))
        }),
{
    reveal_strlit("");
    reveal_strlit("/");
    reveal_strlit("/videos");
    reveal_strlit("/videos/");
    reveal_strlit("videos");
    let front = login + page;
    let path = front + query;
    assert(is_login_char(login[login.len() - 1]));
    assert(!text::is_space(path.last())) by {
        if query.len() > 0 {
            assert(path.last() == query.last());
        } else if page.len() > 0 {
            assert(path.last() == page.last());
        } else {
            assert(path.last() == login.last());
        }
    }
    lemma_link(scheme, host, path);
    assert(scheme + host + seq!['/'] + login + page + query =~= scheme + host + seq!['/'] + path);
    lemma_login_stays_whole(login);
    law_a_login_is_its_channel(login);
    assert forall|k: int| 0 <= k < front.len() implies path[k] != '?' by {
        if k < login.len() {
            assert(is_login_char(login[k]));
        } else {
            let i = k - login.len();
            assert(path[k] == page[i]);
            if i == 0 {
            } else if i == 1 {
            } else if i == 2 {
            } else if i == 3 {
            } else if i == 4 {
            } else if i == 5 {
            } else if i == 6 {
            } else {
                assert(i == 7);
            }
        }
    }
    text::lemma_first_is(path, '?', front.len() as int);
    assert(text::head(path, '?') =~= front);
    lemma_channel_pieces(login, page);
    let parts = nonempty(text::split(front, '/'));
    if parts.len() == 2 && login == "videos"@ {
        let bare = bare_id(parts[1]);
        assert(bare[0] == 'i');
        assert(text::lower_text(login) =~= login) by {
            assert forall|k: int| 0 <= k < login.len() implies text::lower(login[k])
                == login[k] by {
                if k == 0 {
                } else if k == 1 {
                } else if k == 2 {
                } else if k == 3 {
                } else if k == 4 {
                } else {
                    assert(k == 5);
                }
            }
        }
    }
}

proof fn lemma_only_piece(s: Seq<char>)
    requires
        s.len() > 0,
        text::first(s, '/') == s.len(),
    ensures
        nonempty(text::split(s, '/')) == seq![s],
{
    assert(text::split(s, '/') =~= seq![s]);
    assert(seq![s].drop_last() =~= Seq::<Seq<char>>::empty());
    assert(nonempty(Seq::<Seq<char>>::empty()) =~= Seq::<Seq<char>>::empty());
    assert(nonempty(seq![s]) =~= seq![s]);
}

/// A link to a recording names it, and where it says from which moment on, from
/// there.
pub proof fn law_a_link_is_its_recording(
    scheme: Seq<char>,
    host: Seq<char>,
    id: Seq<char>,
    moment: Seq<char>,
)
    requires
        is_scheme(scheme),
        is_host(text::lower_text(host)),
        id.len() > 0,
        text::all_digits(id),
        duration(moment) is Some,
        moment.len() > 0,
        !moment.contains('&'),
        !text::is_space(moment.last()),
    ensures
        reading(scheme + host + seq!['/'] + "videos/"@ + id) == Some(
            TargetView::Video { id, start_secs: None },
        ),
        reading(scheme + host + seq!['/'] + "videos/"@ + id + "?t="@ + moment) == Some(
            TargetView::Video { id, start_secs: duration(moment) },
        ),
{
    reveal_strlit("videos/");
    reveal_strlit("videos");
    reveal_strlit("?t=");
    reveal_strlit("t=");
    let path = "videos/"@ + id;
    assert(text::is_digit(id[id.len() - 1]));
    assert(text::is_digit(id[0]));
    assert forall|k: int| 0 <= k < path.len() implies path[k] != '?' by {
        if k >= 7 {
            assert(text::is_digit(id[k - 7]));
        }
    }
    text::lemma_first_is(path, '/', 6);
    assert(text::head(path, '/') =~= "videos"@);
    assert(text::tail(path, '/') =~= id);
    assert forall|k: int| 0 <= k < id.len() implies id[k] != '/' by {
        assert(text::is_digit(id[k]));
    }
    text::lemma_first_is(id, '/', id.len() as int);
    let parts = seq!["videos"@, id];
    assert(nonempty(text::split(path, '/')) == parts) by {
        assert(text::split(id, '/') =~= seq![id]);
        assert(text::split(path, '/') =~= parts);
        assert(parts.drop_last() =~= seq!["videos"@]);
        assert(seq!["videos"@].drop_last() =~= Seq::<Seq<char>>::empty());
        assert(nonempty(Seq::<Seq<char>>::empty()) =~= Seq::<Seq<char>>::empty());
        assert(nonempty(seq!["videos"@]) =~= seq!["videos"@]);
        assert(nonempty(parts) =~= parts);
    }
    assert(bare_id(id) == id);
    // From the start.
    lemma_link(scheme, host, path);
    assert(scheme + host + seq!['/'] + "videos/"@ + id =~= scheme + host + seq!['/'] + path);
    text::lemma_first_is(path, '?', path.len() as int);
    assert(text::head(path, '?') =~= path);
    assert(start_in(Seq::<char>::empty()) is None) by {
        text::lemma_first(Seq::<char>::empty(), '&');
        let pairs = text::split(Seq::<char>::empty(), '&');
        assert(pairs =~= seq![Seq::<char>::empty()]);
        assert(pairs.drop_first() =~= Seq::<Seq<char>>::empty());
        assert(start_text(pairs.drop_first()) is None);
    }
    // From a moment on.
    let query = "t="@ + moment;
    let timed = path + seq!['?'] + query;
    assert(timed.last() == moment.last());
    lemma_link(scheme, host, timed);
    assert(scheme + host + seq!['/'] + "videos/"@ + id + "?t="@ + moment =~= scheme + host
        + seq!['/'] + timed);
    text::lemma_first_is(timed, '?', path.len() as int);
    assert(text::head(timed, '?') =~= path);
    assert(text::tail(timed, '?') =~= query);
    assert forall|k: int| 0 <= k < query.len() implies query[k] != '&' by {
        if k >= 2 {
            assert(moment.contains(moment[k - 2]));
        }
    }
    text::lemma_first_is(query, '&', query.len() as int);
    assert(text::split(query, '&') =~= seq![query]);
    assert(query.take(2) =~= "t="@);
    assert(query.skip(2) =~= moment);
}

/// What holds nothing, or nothing but white space, names nothing.
pub proof fn law_nothing_names_nothing(typed: Seq<char>)
    requires
        text::trim(typed).len() == 0,
    ensures
        reading(typed) is None,
{
    let s = text::trim(typed);
    reveal_strlit("https://");
    reveal_strlit("http://");
    reveal_strlit("twitch.tv");
    reveal_strlit("www.twitch.tv");
    reveal_strlit("m.twitch.tv");
    assert(without_scheme(s) == s);
    assert(text::head(s, '/').len() == 0);
    assert(text::lower_text(text::head(s, '/')).len() == 0);
    assert(!is_host(text::lower_text(text::head(s, '/'))));
    assert(as_channel(s) is None);
}

/// What a channel was read as is read as the same channel again.
pub proof fn law_reading_is_settled(typed: Seq<char>)
    ensures
        (match reading(typed) {
            Some(TargetView::Channel(login)) => reading(login) == reading(typed),
            _ => true,
        }),
{
    law_a_target_is_normal(typed);
    if let Some(TargetView::Channel(login)) = reading(typed) {
        law_a_login_is_its_channel(login);
        assert(is_login_char(login[0]));
        assert(settings::unhashed(login) == login);
    }
}

/// Hours, minutes and seconds add up, as many of each as there are.
pub proof fn law_a_duration_adds_up(hours: u32, minutes: u32, seconds: u32)
    ensures
        duration(
            text::decimal(hours as nat) + seq!['h'] + text::decimal(minutes as nat) + seq!['m']
                + text::decimal(seconds as nat) + seq!['s'],
        ) == Some((hours * 3600 + minutes * 60 + seconds) as u64),
        duration(text::decimal(minutes as nat) + seq!['m']) == Some((minutes * 60) as u64),
        duration(text::decimal(seconds as nat) + seq!['s']) == Some(seconds as u64),
        duration(text::decimal(hours as nat) + seq!['h']) == Some((hours * 3600) as u64),
        duration(text::decimal(hours as nat)) is None,
        duration(Seq::empty()) is None,
{
    let none = Seq::<char>::empty();
    let h = text::decimal(hours as nat);
    let m = text::decimal(minutes as nat);
    let s = text::decimal(seconds as nat);
    assert(spans(none) == Some(0nat));
    lemma_span(seconds as nat, 's', none);
    let third = s + seq!['s'] + none;
    lemma_span(minutes as nat, 'm', third);
    let second = m + seq!['m'] + third;
    lemma_span(hours as nat, 'h', second);
    assert(h + seq!['h'] + m + seq!['m'] + s + seq!['s'] =~= h + seq!['h'] + second);
    lemma_span(minutes as nat, 'm', none);
    lemma_span(hours as nat, 'h', none);
    assert(m + seq!['m'] =~= m + seq!['m'] + none);
    assert(s + seq!['s'] =~= third);
    assert(h + seq!['h'] =~= h + seq!['h'] + none);
    crate::rewritten::lemma_decimal(hours as nat);
    lemma_digit_run(h, h.len() as int);
    assert(seconds * 1 == seconds) by (nonlinear_arith);
    assert(unit_secs('s') == Some(1nat));
    assert(spans(third) == Some(seconds as nat));
    assert(spans(second) == Some((minutes * 60 + seconds) as nat));
    assert(spans(h + seq!['h'] + second) == Some(
        (hours * 3600 + (minutes * 60 + seconds)) as nat,
    ));
}

proof fn lemma_span(n: nat, unit: char, rest: Seq<char>)
    requires
        unit_secs(unit) is Some,
    ensures
        spans(text::decimal(n) + seq![unit] + rest) == (match spans(rest) {
            Some(more) => Some((n * unit_secs(unit)->0 + more) as nat),
            None => None,
        }),
        text::decimal(n).len() > 0,
{
    let d = text::decimal(n);
    let all = d + seq![unit] + rest;
    crate::rewritten::lemma_decimal(n);
    assert(!text::is_digit(unit));
    assert forall|k: int| 0 <= k < d.len() implies text::is_digit(#[trigger] all[k]) by {
        assert(text::is_digit(d[k]));
    }
    lemma_digit_run(all, d.len() as int);
    assert(all[d.len() as int] == unit);
    assert(all.take(d.len() as int) =~= d);
    assert(all.skip(d.len() as int + 1) =~= rest);
}

/// A login is letters, digits and underscores of ASCII, and not empty.
pub proof fn law_a_login_is_letters_digits_and_underscores(login: Seq<char>, i: int)
    requires
        0 <= i < login.len(),
    ensures
        login_like(login) ==> (48 <= login[i] as u32 <= 57 || 65 <= login[i] as u32 <= 90 || 97
            <= login[i] as u32 <= 122 || login[i] == '_'),
        !login_like(Seq::empty()),
{
    if login_like(login) {
        assert(is_login_char(login[i]));
    }
}

/// Older addresses of a recording stand under its channel, as `video` or `v`;
/// whoever the channel is, and whatever comes after, they lead to the
/// recording, as the present form does.
pub proof fn law_older_addresses_lead_to_the_recording(
    login: Seq<char>,
    id: Seq<char>,
    after: Seq<Seq<char>>,
    query: Seq<char>,
)
    ensures
        as_path(seq![login, "video"@, id] + after, query) == as_path(seq!["videos"@, id], query),
        as_path(seq![login, "v"@, id] + after, query) == as_path(seq!["videos"@, id], query),
{
    let a = seq![login, "video"@, id] + after;
    let b = seq![login, "v"@, id] + after;
    assert(a[1] == "video"@ && a[2] == id);
    assert(b[1] == "v"@ && b[2] == id);
}

/// Three hosts are Twitch, and eight names in its addresses are pages of its
/// own rather than channels.
pub proof fn law_twitch_keeps_some_names_for_itself(s: Seq<char>)
    ensures
        is_host(s) <==> seq!["twitch.tv"@, "www.twitch.tv"@, "m.twitch.tv"@].contains(s),
        is_reserved(s) <==> seq![
            "directory"@,
            "videos"@,
            "search"@,
            "settings"@,
            "subscriptions"@,
            "downloads"@,
            "drops"@,
            "turbo"@,
        ].contains(s),
        text::lower_text(s) == s && is_reserved(s) ==> as_path(seq![s], Seq::empty()) is None,
{
    let hosts = seq!["twitch.tv"@, "www.twitch.tv"@, "m.twitch.tv"@];
    assert(hosts[0] == "twitch.tv"@ && hosts[1] == "www.twitch.tv"@ && hosts[2] == "m.twitch.tv"@);
    let names = seq![
        "directory"@,
        "videos"@,
        "search"@,
        "settings"@,
        "subscriptions"@,
        "downloads"@,
        "drops"@,
        "turbo"@,
    ];
    assert(names[0] == "directory"@ && names[1] == "videos"@ && names[2] == "search"@ && names[3]
        == "settings"@ && names[4] == "subscriptions"@ && names[5] == "downloads"@ && names[6]
        == "drops"@ && names[7] == "turbo"@);
    assert(seq![s][0] == s);
}

/// A recording's number may have a `v` before it, which is no part of it.
pub proof fn law_a_number_may_have_a_v_before_it(id: Seq<char>, query: Seq<char>)
    requires
        id.len() > 0,
        text::all_digits(id),
    ensures
        as_video(seq!['v'] + id, query) == as_video(id, query),
        as_video(id, query) matches Some(TargetView::Video { id: named, .. }) && named == id,
{
    assert((seq!['v'] + id).drop_first() =~= id);
    assert(text::is_digit(id[0]));
}

/// The moment to start from is the first that a query gives, wherever in it
/// that stands; a query without one starts from no moment.
pub proof fn law_the_first_moment_in_a_query_counts(
    before: Seq<Seq<char>>,
    moment: Seq<char>,
    after: Seq<Seq<char>>,
)
    requires
        forall|k: int| 0 <= k < before.len() ==> !text::begins(#[trigger] before[k], "t="@),
    ensures
        start_text(before) is None,
        start_text(before + seq!["t="@ + moment] + after) == Some(moment),
    decreases before.len(),
{
    let all = before + seq!["t="@ + moment] + after;
    if before.len() == 0 {
        let tag = "t="@;
        assert(all[0] == tag + moment);
        assert((tag + moment).take(tag.len() as int) =~= tag);
        assert((tag + moment).skip(tag.len() as int) =~= moment);
    } else {
        let rest = before.drop_first();
        assert forall|k: int| 0 <= k < rest.len() implies !text::begins(#[trigger] rest[k], "t="@) by {
            assert(rest[k] == before[k + 1]);
        }
        law_the_first_moment_in_a_query_counts(rest, moment, after);
        assert(all[0] == before[0]);
        assert(all.drop_first() =~= rest + seq!["t="@ + moment] + after);
    }
}

/// What is no address of Twitch and holds a slash or a point names nothing;
/// what holds neither names a channel or nothing.
pub proof fn law_other_sites_name_nothing(typed: Seq<char>)
    requires
        !is_host(text::lower_text(text::head(without_scheme(text::trim(typed)), '/'))),
    ensures
        text::trim(typed).contains('/') || text::trim(typed).contains('.') ==> reading(typed) is None,
        reading(typed) matches Some(target) ==> target == TargetView::Channel(
            settings::key_of(text::trim(typed)),
        ),
{
}

} // verus!
