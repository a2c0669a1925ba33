//! A pane's chat: the rows it keeps, what each of them says, and the colours of
//! the people who have spoken.

use crate::clock;
use crate::clock::{Pattern, TimeOfDay};
use crate::layout;
use crate::moment;
use crate::moment::Moment;
use crate::text;
use vstd::prelude::*;
use vstd::string::*;

verus! {

/// Rows kept. Old ones drop off the top: chat runs forever.
pub const MAX_MESSAGES: usize = 1_000;

/// Something a person said.
#[derive(Debug, PartialEq, Eq)]
pub struct ChatMessage {
    pub login: String,
    pub display_name: String,
    /// `0xRRGGBB`.
    pub color: u32,
    pub text: String,
    /// Which parts of the text are Twitch's own emotes, as Twitch tags them.
    pub emotes: Option<String>,
    /// Written in the third person.
    pub is_action: bool,
    /// In milliseconds since the epoch, as the server saw it.
    pub sent_at: Option<u64>,
}

/// Which of Twitch's events a notice is.
#[derive(Debug, Clone, Copy, PartialEq, Eq, Structural)]
pub enum NoticeKind {
    Raid,
    Announcement,
    /// A subscription, a gift, or one of the many others.
    Other,
}

/// A moment that the streamer reacts to on camera.
#[derive(Debug, PartialEq, Eq)]
pub struct ChatNotice {
    pub kind: NoticeKind,
    /// The sentence Twitch wrote, which may be empty.
    pub system: String,
    /// What the person attached to it.
    pub body: Option<ChatMessage>,
    pub sent_at: Option<u64>,
}

/// What the connection to a channel's chat reports.
#[derive(Debug, PartialEq, Eq)]
pub enum ChatEvent {
    Connected { channel: String },
    RoomState { room_id: String },
    Message(Box<ChatMessage>),
    Notice(Box<ChatNotice>),
    Cleared { login: Option<String> },
    Disconnected { reason: String },
}

#[derive(Debug, PartialEq, Eq)]
pub enum RowKind {
    Message(Box<ChatMessage>),
    Event(Box<ChatNotice>),
    /// Something the app itself has to say.
    Notice(String),
}

/// How strongly a row is washed with colour.
#[derive(Debug, Clone, Copy, PartialEq, Eq, Structural)]
pub enum Wash {
    Plain,
    Loud,
}

impl RowKind {
    /// The wash behind this row, if it needs one.
    pub open spec fn washed(self) -> Option<Wash> {
        match self {
            RowKind::Event(notice) => match notice.kind {
                NoticeKind::Raid => Some(Wash::Loud),
                NoticeKind::Announcement => Some(Wash::Loud),
                NoticeKind::Other => Some(Wash::Plain),
            },
            _ => None,
        }
    }

    pub fn wash(&self) -> (r: Option<Wash>)
        ensures
            r == self.washed(),
    {
        match self {
            RowKind::Event(notice) => match notice.kind {
                NoticeKind::Raid => Some(Wash::Loud),
                NoticeKind::Announcement => Some(Wash::Loud),
                NoticeKind::Other => Some(Wash::Plain),
            },
            _ => None,
        }
    }
}

#[derive(Debug, PartialEq, Eq)]
pub struct Row {
    pub kind: RowKind,
    /// Decided when the row is appended, never from its place: rows that drop
    /// off the top shift every place by one.
    pub striped: bool,
    /// When it was sent, written once on arrival.
    pub stamp: String,
    /// Stable for this row's whole life, unlike its place.
    pub seq: u64,
}

impl Row {
    /// Whether the row is drawn with its stripe, which an event is not.
    pub fn shows_stripe(&self) -> (r: bool)
        ensures
            r == (self.striped && self.kind.washed() is None),
    {
        self.striped && self.kind.wash().is_none()
    }
}

/// What a message starts with. An action puts the name inside its sentence.
pub fn name_shown(message: &ChatMessage) -> (r: String)
    ensures
        r@ == (if message.is_action {
            message.display_name@
        } else {
            message.display_name@ + ":"@
        }),
{
    if message.is_action {
        message.display_name.clone()
    } else {
        text::concat2(message.display_name.as_str(), ":")
    }
}

// ── What a message is made of ────────────────────────────────────────

/// A stretch of a message: text, or an emote in the place of its name.
#[derive(Debug, Clone, PartialEq, Eq)]
pub enum Token {
    Text(String),
    Emote { name: String, url: String },
}

/// What a message's line wraps between: its words, numbered, and its emotes,
/// numbered on their own. The numbers tell two alike apart on screen.
#[derive(Debug, Clone, PartialEq, Eq)]
pub enum Piece {
    Word { text: String, position: usize },
    Emote { name: String, url: String, position: usize },
}

/// A [`Piece`] with its texts as sequences.
pub enum PieceView {
    Word { text: Seq<char>, position: int },
    Emote { name: Seq<char>, url: Seq<char>, position: int },
}

impl View for Piece {
    type V = PieceView;

    open spec fn view(&self) -> PieceView {
        match *self {
            Piece::Word { text, position } => PieceView::Word { text: text@, position: position as int },
            Piece::Emote { name, url, position } => PieceView::Emote {
                name: name@,
                url: url@,
                position: position as int,
            },
        }
    }
}

/// How many words the texts among some tokens have.
pub open spec fn word_count(tokens: Seq<Token>) -> nat
    decreases tokens.len(),
{
    if tokens.len() == 0 {
        0
    } else {
        word_count(tokens.drop_last()) + match tokens.last() {
            Token::Text(words) => text::words(words@).len(),
            Token::Emote { .. } => 0,
        }
    }
}

/// How many emotes there are among some tokens.
pub open spec fn emote_count(tokens: Seq<Token>) -> nat
    decreases tokens.len(),
{
    if tokens.len() == 0 {
        0
    } else {
        emote_count(tokens.drop_last()) + match tokens.last() {
            Token::Text(_) => 0nat,
            Token::Emote { .. } => 1,
        }
    }
}

/// The words of a text, numbered from `first` on.
pub open spec fn numbered(words: Seq<Seq<char>>, first: nat) -> Seq<PieceView> {
    Seq::new(words.len(), |i: int| PieceView::Word { text: words[i], position: first + i })
}

/// The pieces of a message, in the order it was written.
pub open spec fn pieces_of(tokens: Seq<Token>) -> Seq<PieceView>
    decreases tokens.len(),
{
    if tokens.len() == 0 {
        Seq::empty()
    } else {
        let rest = tokens.drop_last();
        pieces_of(rest) + match tokens.last() {
            Token::Text(words) => numbered(text::words(words@), word_count(rest)),
            Token::Emote { name, url } => seq![
                PieceView::Emote { name: name@, url: url@, position: emote_count(rest) as int },
            ],
        }
    }
}

pub open spec fn drawn(list: Seq<Piece>) -> Seq<PieceView> {
    list.map_values(|piece: Piece| piece@)
}

/// The pieces that a message's line is made of.
pub fn message_line(tokens: Vec<Token>) -> (r: Vec<Piece>)
    ensures
        drawn(r@) == pieces_of(tokens@),
{
    let mut out: Vec<Piece> = Vec::new();
    let mut words_so_far: usize = 0;
    let mut emotes_so_far: usize = 0;
    let mut i: usize = 0;
    assert(tokens@.take(0) =~= Seq::empty());
    assert(drawn(out@) =~= Seq::empty());
    while i < tokens.len()
        invariant
            i <= tokens@.len(),
            drawn(out@) == pieces_of(tokens@.take(i as int)),
            words_so_far == word_count(tokens@.take(i as int)),
            emotes_so_far == emote_count(tokens@.take(i as int)),
            out@.len() == words_so_far + emotes_so_far,
        decreases tokens@.len() - i,
    {
        let ghost done = tokens@.take(i as int);
        let ghost held = out@;
        assert(tokens@.take(i + 1).drop_last() =~= done);
        match &tokens[i] {
            Token::Text(said) => {
                let list = text::words_of(said.as_str());
                let ghost all = text::texts(list@);
                let ghost first = words_so_far as nat;
                let mut k: usize = 0;
                assert(numbered(all, first).take(0) =~= Seq::empty());
                assert(drawn(out@) =~= pieces_of(done) + numbered(all, first).take(0));
                while k < list.len()
                    invariant
                        k <= list@.len(),
                        all == text::texts(list@),
                        words_so_far == first + k,
                        drawn(out@) == pieces_of(done) + numbered(all, first).take(k as int),
                        out@.len() == words_so_far + emotes_so_far,
                    decreases list@.len() - k,
                {
                    let ghost before = out@;
                    let word = list[k].clone();
                    out.push(Piece::Word { text: word, position: words_so_far });
                    words_so_far = out.len() - emotes_so_far;
                    k = k + 1;
                    assert(drawn(out@) =~= drawn(before).push(out@.last()@));
                    assert(numbered(all, first).take(k as int) =~= numbered(all, first).take(
                        k - 1,
                    ).push(numbered(all, first)[k - 1]));
                    assert(drawn(out@) =~= pieces_of(done) + numbered(all, first).take(k as int));
                }
                assert(numbered(all, first).take(k as int) =~= numbered(all, first));
            },
            Token::Emote { name, url } => {
                out.push(
                    Piece::Emote {
                        name: name.clone(),
                        url: url.clone(),
                        position: emotes_so_far,
                    },
                );
                assert(drawn(out@) =~= drawn(held).push(out@.last()@));
                emotes_so_far = out.len() - words_so_far;
                assert(drawn(out@) =~= pieces_of(tokens@.take(i + 1)));
            },
        }
        i = i + 1;
    }
    assert(tokens@.take(i as int) =~= tokens@);
    out
}

/// Whether a message needs the room that an emote does: emotes hang over their
/// line.
pub fn overhangs(tokens: &Vec<Token>) -> (r: bool)
    ensures
        r == exists|i: int| 0 <= i < tokens@.len() && (#[trigger] tokens@[i]) is Emote,
{
    let mut i: usize = 0;
    while i < tokens.len()
        invariant
            i <= tokens@.len(),
            forall|k: int| 0 <= k < i ==> !((#[trigger] tokens@[k]) is Emote),
        decreases tokens@.len() - i,
    {
        match &tokens[i] {
            Token::Emote { .. } => {
                assert(tokens@[i as int] is Emote);
                return true;
            },
            Token::Text(_) => {},
        }
        i = i + 1;
    }
    false
}

// ── When a row was sent ──────────────────────────────────────────────

/// What a number of milliseconds is, read as a signed one of as many bits.
pub open spec fn as_signed(millis: u64) -> int {
    if millis <= i64::MAX {
        millis as int
    } else {
        millis - 0x1_0000_0000_0000_0000
    }
}

/// The moment a row was sent: what the server said, or now for a row without
/// such a time and where it is out of range.
pub open spec fn sent(sent_at: Option<u64>, now: Moment) -> Moment {
    match sent_at {
        Some(millis) => {
            let secs = as_signed(millis) / 1000;
            if moment::FIRST <= secs <= moment::LAST {
                Moment {
                    secs: secs as i64,
                    nanos: ((as_signed(millis) % 1000) * 1_000_000) as u32,
                }
            } else {
                now
            }
        },
        None => now,
    }
}

pub fn sent_moment(sent_at: Option<u64>, now: Moment) -> (r: Moment)
    ensures
        r == sent(sent_at, now),
        now.representable() ==> r.representable(),
{
    match sent_at {
        Some(millis) => {
            let (secs, rest): (i64, u32) = if millis <= i64::MAX as u64 {
                ((millis / 1000) as i64, (millis % 1000) as u32)
            } else {
                // Rounded towards the past, as a time before the epoch is.
                let below: u64 = u64::MAX - millis;
                (-1 - (below / 1000) as i64, 999 - (below % 1000) as u32)
            };
            assert(secs == as_signed(millis) / 1000 && rest == as_signed(millis) % 1000) by {
                if millis > i64::MAX {
                    let below = u64::MAX - millis;
                    assert(as_signed(millis) == -1 - below);
                    vstd::arithmetic::div_mod::lemma_fundamental_div_mod(below as int, 1000);
                    vstd::arithmetic::div_mod::lemma_fundamental_div_mod_converse(
                        -1 - below,
                        1000,
                        -1 - below / 1000,
                        999 - below % 1000,
                    );
                }
            }
            if moment::FIRST <= secs && secs <= moment::LAST {
                Moment { secs, nanos: rest * 1_000_000 }
            } else {
                now
            }
        },
        None => now,
    }
}

/// When a row was sent, in the way this machine writes a time. Which time of day
/// a moment is here depends on the machine.
pub fn clock(sent_at: Option<u64>, pattern: &Pattern) -> (r: String)
    ensures
        exists|at: TimeOfDay|
            at.hour < 24 && at.minute < 60 && at.second < 60 && r@ == #[trigger] pattern.written(
                pattern.pattern@,
                at,
            ),
{
    clock::stamp(sent_moment(sent_at, moment::now()), pattern)
}

impl ChatEvent {
    /// When an event was sent, in milliseconds, where the server said. What the
    /// app itself has to say was not sent by anybody.
    pub open spec fn sent_at(self) -> Option<u64> {
        match self {
            ChatEvent::Message(message) => message.sent_at,
            ChatEvent::Notice(notice) => notice.sent_at,
            _ => None,
        }
    }

    pub fn told_sent(&self) -> (r: Option<u64>)
        ensures
            r == self.sent_at(),
    {
        match self {
            ChatEvent::Message(message) => message.sent_at,
            ChatEvent::Notice(notice) => notice.sent_at,
            _ => None,
        }
    }
}

// ── The colours of the people who spoke ──────────────────────────────

/// The colour that a login was last seen in.
pub open spec fn color_of(list: Seq<(String, u32)>, login: Seq<char>) -> Option<u32>
    decreases list.len(),
{
    if list.len() == 0 {
        None
    } else if list.last().0@ == login {
        Some(list.last().1)
    } else {
        color_of(list.drop_last(), login)
    }
}

/// Whether `after` knows what `before` did, and `color` for `login`.
pub open spec fn colored(
    before: Seq<(String, u32)>,
    login: Seq<char>,
    color: u32,
    after: Seq<(String, u32)>,
) -> bool {
    forall|who: Seq<char>| #[trigger]
        color_of(after, who) == (if who == login {
            Some(color)
        } else {
            color_of(before, who)
        })
}

proof fn lemma_color_set(list: Seq<(String, u32)>, at: int, pair: (String, u32), who: Seq<char>)
    requires
        0 <= at < list.len(),
        pair.0@ == list[at].0@,
        forall|k: int| at < k < list.len() ==> (#[trigger] list[k]).0@ != pair.0@,
    ensures
        color_of(list.update(at, pair), who) == (if who == pair.0@ {
            Some(pair.1)
        } else {
            color_of(list, who)
        }),
    decreases list.len(),
{
    let changed = list.update(at, pair);
    if at == list.len() - 1 {
        assert(changed.drop_last() =~= list.drop_last());
    } else {
        assert(changed.drop_last() =~= list.drop_last().update(at, pair));
        lemma_color_set(list.drop_last(), at, pair, who);
        assert(list[list.len() - 1].0@ != pair.0@);
    }
}

/// Remember a login's colour, one entry to a login.
fn remember(list: &mut Vec<(String, u32)>, login: &String, color: u32)
    ensures
        colored(old(list)@, login@, color, final(list)@),
{
    let mut i: usize = list.len();
    while i > 0
        invariant
            i <= list@.len(),
            list@ == old(list)@,
            forall|k: int| i <= k < list@.len() ==> (#[trigger] list@[k]).0@ != login@,
        decreases i,
    {
        i = i - 1;
        if text::same(list[i].0.as_str(), login.as_str()) {
            let pair = (login.clone(), color);
            list.set(i, pair);
            proof {
                assert forall|who: Seq<char>| #[trigger] color_of(list@, who) == (if who == login@ {
                    Some(color)
                } else {
                    color_of(old(list)@, who)
                }) by {
                    lemma_color_set(old(list)@, i as int, pair, who);
                }
            }
            return ;
        }
    }
    let ghost before = list@;
    list.push((login.clone(), color));
    assert(list@.drop_last() =~= before);
}

// ── The pane ─────────────────────────────────────────────────────────

#[derive(Debug)]
pub struct ChatView {
    pub rows: Vec<Row>,
    /// What to say while the pane is still empty.
    pub connecting: String,
    /// Login to colour, filled in as people talk.
    pub colors: Vec<(String, u32)>,
    /// The stripe of the last row appended.
    pub striped: bool,
    /// The last row's number.
    pub next_seq: u64,
}

/// What an event leaves to be done.
#[derive(Debug, Clone, PartialEq, Eq)]
pub enum Applied {
    /// A row was added at the bottom, and so many dropped off the top.
    Row { dropped: usize },
    /// The channel's own emotes can be fetched, for the room of this id.
    Load(String),
}

impl ChatView {
    /// What holds of a pane between events.
    pub open spec fn wf(self) -> bool {
        self.rows@.len() <= MAX_MESSAGES
    }

    pub fn new(channel: &str) -> (r: ChatView)
        ensures
            r.wf(),
            r.rows@.len() == 0,
            r.connecting@ == "connecting to #"@ + channel@ + "…"@,
            forall|who: Seq<char>| #[trigger] color_of(r.colors@, who) is None,
            !r.striped,
            r.next_seq == 0,
    {
        ChatView {
            rows: Vec::new(),
            connecting: text::concat3("connecting to #", channel, "…"),
            colors: Vec::new(),
            striped: false,
            next_seq: 0,
        }
    }

    /// Whether `after` is this pane with a row added at the bottom, as far as
    /// rows go, and the oldest dropped where there are too many.
    pub open spec fn extended(self, kind: RowKind, stamp: String, after: ChatView, dropped: int)
        -> bool {
        let all = self.rows@.push(
            Row {
                kind,
                striped: !self.striped,
                stamp,
                seq: (self.next_seq + 1) as u64,
            },
        );
        &&& after.striped == !self.striped
        &&& after.next_seq == self.next_seq + 1
        &&& dropped == (if all.len() > MAX_MESSAGES {
            all.len() - MAX_MESSAGES
        } else {
            0
        })
        &&& after.rows@ == all.skip(dropped)
        &&& after.connecting == self.connecting
    }

    /// Append one row, trimming what is kept. How many dropped off the top.
    pub fn push(&mut self, kind: RowKind, stamp: String) -> (r: usize)
        requires
            old(self).wf(),
            old(self).next_seq < u64::MAX,
        ensures
            final(self).wf(),
            old(self).extended(kind, stamp, *final(self), r as int),
            final(self).colors == old(self).colors,
    {
        self.striped = !self.striped;
        self.next_seq = self.next_seq + 1;
        self.rows.push(Row { kind, striped: self.striped, stamp, seq: self.next_seq });
        let ghost all = self.rows@;
        if self.rows.len() > MAX_MESSAGES {
            self.rows.remove(0);
            assert(self.rows@ =~= all.skip(1));
            1
        } else {
            assert(self.rows@ =~= all.skip(0));
            0
        }
    }

    /// What an event does to this pane: the row it adds, if any, and the colour
    /// it tells. A note attached to a notice counts as having spoken.
    pub open spec fn heard(self, event: ChatEvent, stamp: String, after: ChatView, r: Applied) -> bool {
        match event {
            ChatEvent::RoomState { room_id } => after == self && r == Applied::Load(room_id),
            ChatEvent::Message(message) => {
                &&& r is Row
                &&& self.extended(RowKind::Message(message), stamp, after, r->dropped as int)
                &&& colored(self.colors@, message.login@, message.color, after.colors@)
            },
            ChatEvent::Notice(notice) => {
                &&& r is Row
                &&& self.extended(RowKind::Event(notice), stamp, after, r->dropped as int)
                &&& match notice.body {
                    Some(body) => colored(self.colors@, body.login@, body.color, after.colors@),
                    None => after.colors == self.colors,
                }
            },
            ChatEvent::Connected { channel } => self.said("joined #"@ + channel@, stamp, after, r),
            ChatEvent::Cleared { login } => self.said(
                match login {
                    Some(who) => who@ + " was timed out or banned"@,
                    None => "chat was cleared"@,
                },
                stamp,
                after,
                r,
            ),
            ChatEvent::Disconnected { reason } => self.said(
                "disconnected: "@ + reason@ + " — retrying"@,
                stamp,
                after,
                r,
            ),
        }
    }

    /// A row of the app's own was added.
    pub open spec fn said(self, words: Seq<char>, stamp: String, after: ChatView, r: Applied) -> bool {
        &&& r is Row
        &&& after.colors == self.colors
        &&& after.rows@.last().kind is Notice
        &&& after.rows@.last().kind->Notice_0@ == words
        &&& self.extended(after.rows@.last().kind, stamp, after, r->dropped as int)
    }

    /// Take in an event, given the stamp its row gets.
    pub fn apply_at(&mut self, event: ChatEvent, stamp: String) -> (r: Applied)
        requires
            old(self).wf(),
            old(self).next_seq < u64::MAX,
        ensures
            final(self).wf(),
            old(self).heard(event, stamp, *final(self), r),
    {
        match event {
            ChatEvent::Connected { channel } => {
                let said = text::concat2("joined #", channel.as_str());
                let dropped: usize = self.push(RowKind::Notice(said), stamp);
                Applied::Row { dropped }
            },
            ChatEvent::RoomState { room_id } => Applied::Load(room_id),
            ChatEvent::Message(message) => {
                remember(&mut self.colors, &message.login, message.color);
                let dropped: usize = self.push(RowKind::Message(message), stamp);
                Applied::Row { dropped }
            },
            ChatEvent::Notice(notice) => {
                match &notice.body {
                    Some(body) => remember(&mut self.colors, &body.login, body.color),
                    None => {},
                }
                let dropped: usize = self.push(RowKind::Event(notice), stamp);
                Applied::Row { dropped }
            },
            ChatEvent::Cleared { login } => {
                let said = match login {
                    Some(who) => text::concat2(who.as_str(), " was timed out or banned"),
                    None => "chat was cleared".to_string(),
                };
                let dropped: usize = self.push(RowKind::Notice(said), stamp);
                Applied::Row { dropped }
            },
            ChatEvent::Disconnected { reason } => {
                let said = text::concat3("disconnected: ", reason.as_str(), " — retrying");
                let dropped: usize = self.push(RowKind::Notice(said), stamp);
                Applied::Row { dropped }
            },
        }
    }

    /// Take in an event. Its row is stamped with the time that
    /// [`ChatEvent::told_sent`] gives, and one of the app's own with the present.
    /// Which time of day that is here depends on the machine.
    pub fn apply(&mut self, event: ChatEvent, pattern: &Pattern) -> (r: Applied)
        requires
            old(self).wf(),
            old(self).next_seq < u64::MAX,
        ensures
            final(self).wf(),
            exists|at: TimeOfDay, stamp: String|
                at.hour < 24 && at.minute < 60 && at.second < 60 && stamp@
                    == #[trigger] pattern.written(pattern.pattern@, at) && #[trigger] old(
                    self,
                ).heard(event, stamp, *final(self), r),
    {
        let stamp = clock(event.told_sent(), pattern);
        self.apply_at(event, stamp)
    }

    /// Whether a row has the time above it: it was sent in another minute than
    /// the row before.
    pub open spec fn breaks(self, index: int) -> bool {
        index == 0 || self.rows@[index - 1].stamp@ != self.rows@[index].stamp@
    }

    /// The time to write above a row, once for each run of rows with the same.
    pub fn time_break(&self, index: usize) -> (r: Option<String>)
        ensures
            r is Some <==> index < self.rows@.len() && self.breaks(index as int),
            r is Some ==> r->0@ == self.rows@[index as int].stamp@,
    {
        if index >= self.rows.len() {
            return None;
        }
        if index == 0 || !text::same(
            self.rows[index - 1].stamp.as_str(),
            self.rows[index].stamp.as_str(),
        ) {
            Some(self.rows[index].stamp.clone())
        } else {
            None
        }
    }

    /// The colour of whoever is mentioned, if they have been seen to speak.
    pub fn mention_color(&self, login: &str) -> (r: Option<u32>)
        ensures
            r == color_of(self.colors@, text::lower_text(login@)),
    {
        let wanted = text::string_of(&text::lowered_chars(&text::chars_of(login)));
        let mut i: usize = self.colors.len();
        assert(self.colors@.take(i as int) =~= self.colors@);
        while i > 0
            invariant
                i <= self.colors@.len(),
                wanted@ == text::lower_text(login@),
                color_of(self.colors@.take(i as int), wanted@) == color_of(self.colors@, wanted@),
            decreases i,
        {
            assert(self.colors@.take(i as int).drop_last() =~= self.colors@.take(i - 1));
            i = i - 1;
            if text::same(self.colors[i].0.as_str(), wanted.as_str()) {
                return Some(self.colors[i].1);
            }
        }
        None
    }
}

/// Whether a pane shows its newest row, from how far it can scroll and how far
/// it has, in [`layout::PIXEL`]ths of a pixel. A pixel of slack: an offset made
/// of measured heights lands a little short of the end.
pub fn at_live(furthest: i64, scrolled: i64) -> (r: bool)
    ensures
        r == (furthest <= 0 || scrolled >= furthest - layout::PIXEL),
{
    furthest <= 0 || scrolled >= furthest - layout::PIXEL as i64
}

/// Whether the rows of a pane are numbered and striped in the order they came:
/// each number is one more than the one before it, and stripes alternate.
pub open spec fn in_step(chat: ChatView) -> bool {
    forall|i: int|
        0 <= i < chat.rows@.len() ==> {
            let back = chat.rows@.len() - 1 - i;
            &&& (#[trigger] chat.rows@[i]).seq == chat.next_seq - back
            &&& chat.rows@[i].striped == (if back % 2 == 0 {
                chat.striped
            } else {
                !chat.striped
            })
        }
}

/// A pane's rows stay numbered and striped in the order they came, whatever
/// arrives and however many have dropped off the top.
pub proof fn law_stripes_do_not_flicker(
    before: ChatView,
    kind: RowKind,
    stamp: String,
    after: ChatView,
    dropped: int,
)
    requires
        in_step(before),
        before.wf(),
        before.next_seq < u64::MAX,
        before.extended(kind, stamp, after, dropped),
    ensures
        in_step(after),
        forall|i: int|
            dropped <= i < before.rows@.len() ==> after.rows@[i - dropped] == #[trigger] before.rows@[i],
{
    let all = before.rows@.push(
        Row { kind, striped: !before.striped, stamp, seq: (before.next_seq + 1) as u64 },
    );
    assert forall|i: int| 0 <= i < after.rows@.len() implies ({
        let back = after.rows@.len() - 1 - i;
        &&& (#[trigger] after.rows@[i]).seq == after.next_seq - back
        &&& after.rows@[i].striped == (if back % 2 == 0 {
            after.striped
        } else {
            !after.striped
        })
    }) by {
        assert(after.rows@[i] == all[i + dropped]);
        if i + dropped < before.rows@.len() {
            assert(all[i + dropped] == before.rows@[i + dropped]);
        }
    }
    assert forall|i: int| dropped <= i < before.rows@.len() implies after.rows@[i - dropped]
        == #[trigger] before.rows@[i] by {
        assert(after.rows@[i - dropped] == all[i]);
    }
}

/// A pane never keeps more than so many rows, and the newest is always there.
pub proof fn law_the_newest_row_is_kept(
    before: ChatView,
    kind: RowKind,
    stamp: String,
    after: ChatView,
    dropped: int,
)
    requires
        before.wf(),
        before.extended(kind, stamp, after, dropped),
    ensures
        0 < after.rows@.len() <= MAX_MESSAGES,
        after.rows@.last().kind == kind,
        after.rows@.last().stamp == stamp,
{
}

/// A row is stamped with the millisecond the server said, and with the present
/// where it said none or one that no calendar has.
pub proof fn law_a_row_is_stamped_when_it_was_sent(millis: u64, now: Moment)
    ensures
        millis <= 8_210_266_876_799_999 ==> sent(Some(millis), now).secs * 1000 + sent(
            Some(millis),
            now,
        ).nanos / 1_000_000 == millis,
        8_210_266_876_799_999 < millis <= i64::MAX ==> sent(Some(millis), now) == now,
        sent(None, now) == now,
{
}

/// What somebody says is the newest row, as they said it; it tells the colour
/// they are written in, and nobody else's; and no row but the oldest is lost,
/// and that only past a thousand.
pub proof fn law_what_is_said_is_shown(
    before: ChatView,
    message: Box<ChatMessage>,
    stamp: String,
    after: ChatView,
    r: Applied,
    other: Seq<char>,
)
    requires
        before.wf(),
        before.heard(ChatEvent::Message(message), stamp, after, r),
    ensures
        r is Row,
        after.rows@.len() > 0,
        after.rows@.last().kind == RowKind::Message(message),
        after.rows@.last().stamp == stamp,
        color_of(after.colors@, message.login@) == Some(message.color),
        other != message.login@ ==> color_of(after.colors@, other) == color_of(
            before.colors@,
            other,
        ),
        before.rows@.len() < 1000 ==> r->dropped == 0 && after.rows@.len() == before.rows@.len() + 1,
        before.rows@.len() == 1000 ==> r->dropped == 1 && after.rows@.len() == 1000,
        forall|i: int|
            r->dropped <= i < before.rows@.len() ==> after.rows@[i - r->dropped]
                == #[trigger] before.rows@[i],
{
    let dropped = r->dropped as int;
    assert forall|i: int| dropped <= i < before.rows@.len() implies after.rows@[i - dropped]
        == #[trigger] before.rows@[i] by {}
}

/// An event is shown with the sentence it came with, and whoever added a note to
/// it has spoken; the room's number adds no row and asks for its emotes; and
/// what the app itself has to say tells nobody's colour.
pub proof fn law_every_event_is_taken_in(
    before: ChatView,
    event: ChatEvent,
    stamp: String,
    after: ChatView,
    r: Applied,
)
    requires
        before.wf(),
        before.heard(event, stamp, after, r),
    ensures
        event matches ChatEvent::RoomState { room_id } ==> r == Applied::Load(room_id) && after
            == before,
        !(event is RoomState) ==> r is Row && after.rows@.len() > 0 && after.rows@.last().stamp
            == stamp,
        event matches ChatEvent::Notice(notice) ==> after.rows@.last().kind == RowKind::Event(notice)
            && (notice.body matches Some(body) ==> color_of(after.colors@, body.login@) == Some(
            body.color,
        )) && (notice.body is None ==> after.colors == before.colors),
        event matches ChatEvent::Connected { channel } ==> after.rows@.last().kind is Notice
            && after.rows@.last().kind->Notice_0@ == "joined #"@ + channel@ && after.colors
            == before.colors,
        event matches ChatEvent::Cleared { login } ==> after.rows@.last().kind is Notice && (
        login matches Some(who) ==> after.rows@.last().kind->Notice_0@ == who@
            + " was timed out or banned"@) && (login is None ==> after.rows@.last().kind->Notice_0@
            == "chat was cleared"@),
        event matches ChatEvent::Disconnected { reason } ==> after.rows@.last().kind is Notice
            && after.rows@.last().kind->Notice_0@ == "disconnected: "@ + reason@ + " — retrying"@,
        event is Message || event is Notice || event.sent_at() is None,
        event matches ChatEvent::Message(message) ==> event.sent_at() == message.sent_at,
        event matches ChatEvent::Notice(notice) ==> event.sent_at() == notice.sent_at,
{
}

/// The colour somebody was last seen in is the one they have.
pub proof fn law_the_last_colour_counts(
    list: Seq<(String, u32)>,
    login: String,
    color: u32,
    other: Seq<char>,
)
    ensures
        color_of(list.push((login, color)), login@) == Some(color),
        other != login@ ==> color_of(list.push((login, color)), other) == color_of(list, other),
        color_of(Seq::empty(), other) is None,
{
    assert(list.push((login, color)).drop_last() =~= list);
}

/// A message is drawn in the order it was written: its tokens one behind the
/// other, each text as its words and each emote as itself. Words are counted
/// through, and so are emotes, so that no two of either have one number.
pub proof fn law_a_message_is_drawn_in_order(tokens: Seq<Token>)
    ensures
        pieces_of(tokens).len() == word_count(tokens) + emote_count(tokens),
        tokens.len() > 0 && tokens.last() is Text ==> {
            let words = text::words(tokens.last()->Text_0@);
            let before = pieces_of(tokens.drop_last());
            &&& pieces_of(tokens).len() == before.len() + words.len()
            &&& pieces_of(tokens).take(before.len() as int) == before
            &&& forall|i: int|
                0 <= i < words.len() ==> {
                    let piece = #[trigger] pieces_of(tokens)[before.len() + i];
                    piece is Word && piece->text == words[i]
                }
        },
        tokens.len() > 0 && tokens.last() is Emote ==> {
            let before = pieces_of(tokens.drop_last());
            let piece = pieces_of(tokens).last();
            &&& pieces_of(tokens).drop_last() == before
            &&& piece is Emote
            &&& piece->name == tokens.last()->name@
            &&& piece->url == tokens.last()->url@
        },
        forall|i: int|
            0 <= i < pieces_of(tokens).len() ==> match #[trigger] pieces_of(tokens)[i] {
                PieceView::Word { position, .. } => 0 <= position < word_count(tokens),
                PieceView::Emote { position, .. } => 0 <= position < emote_count(tokens),
            },
        forall|i: int, j: int|
            0 <= i < j < pieces_of(tokens).len() ==> match (
                #[trigger] pieces_of(tokens)[i],
                #[trigger] pieces_of(tokens)[j],
            ) {
                (PieceView::Word { position: a, .. }, PieceView::Word { position: b, .. }) => a < b,
                (PieceView::Emote { position: a, .. }, PieceView::Emote { position: b, .. }) => a
                    < b,
                _ => true,
            },
    decreases tokens.len(),
{
    if tokens.len() > 0 {
        let rest = tokens.drop_last();
        law_a_message_is_drawn_in_order(rest);
        let before = pieces_of(rest);
        let all = pieces_of(tokens);
        assert(all.take(before.len() as int) =~= before);
        if tokens.last() is Emote {
            assert(all.drop_last() =~= before);
        }
        assert forall|i: int, j: int| 0 <= i < j < all.len() implies match (
            #[trigger] all[i],
            #[trigger] all[j],
        ) {
            (PieceView::Word { position: a, .. }, PieceView::Word { position: b, .. }) => a < b,
            (PieceView::Emote { position: a, .. }, PieceView::Emote { position: b, .. }) => a < b,
            _ => true,
        } by {
            if i < before.len() {
                assert(all[i] == before[i]);
            }
            if j < before.len() {
                assert(all[j] == before[j]);
            }
        }
    }
}

/// The time stands above the first row, and above each that was sent at another
/// than the one before.
pub proof fn law_the_time_is_said_when_it_changes(chat: ChatView, index: int)
    requires
        0 <= index < chat.rows@.len(),
    ensures
        index == 0 ==> chat.breaks(index),
        index > 0 ==> (chat.breaks(index) <==> chat.rows@[index].stamp@ != chat.rows@[index
            - 1].stamp@),
{
}

/// Only what happened in the channel is set off from what was said in it; a
/// raid and an announcement more than the rest.
pub proof fn law_only_events_are_set_off(row: RowKind)
    ensures
        row.washed() is Some <==> row is Event,
        row matches RowKind::Event(notice) ==> (row.washed() == Some(Wash::Loud) <==> notice.kind
            is Raid || notice.kind is Announcement),
        row matches RowKind::Event(notice) ==> (row.washed() == Some(Wash::Plain) <==> notice.kind
            is Other),
{
}

/// A time beyond what a signed number of milliseconds holds is one before
/// the start of the count, as its bits say; none that the calendar lacks is
/// taken.
pub proof fn law_a_time_is_read_as_signed(millis: u64, now: Moment)
    ensures
        ({
            let m = if millis < 0x8000_0000_0000_0000 {
                millis as int
            } else {
                millis - 0x1_0000_0000_0000_0000
            };
            let at = sent(Some(millis), now);
            &&& moment::FIRST * 1000 <= m < (moment::LAST + 1) * 1000 ==> at.secs * 1000 + at.nanos
                / 1_000_000 == m && at.nanos % 1_000_000 == 0 && at.nanos < 1_000_000_000
            &&& !(moment::FIRST * 1000 <= m < (moment::LAST + 1) * 1000) ==> at == now
        }),
        sent(None, now) == now,
{
}

} // verus!
