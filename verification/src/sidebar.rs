//! The rail beside both pages: who is live now, and who of them is open.

use crate::browse;
use crate::follows;
use crate::helix::LiveStream;
use crate::text;
use crate::watch::Slot;
use vstd::prelude::*;
use vstd::string::*;

verus! {

/// How wide the rail is when it is open, in pixels.
pub const WIDTH: u32 = 236;

/// The size that a profile picture is asked for in, and the one its URL names.
pub const AVATAR_REQUEST: &'static str = "70x70";

pub const AVATAR_LISTED: &'static str = "300x300";

/// What an empty rail says.
pub const NOBODY: &'static str = "Nobody you follow is live.";

/// One live channel, as a row.
#[derive(Debug, Clone, PartialEq, Eq)]
pub struct Row {
    pub login: String,
    pub name: String,
    pub game: String,
    /// Where its picture is, once that is known.
    pub picture: Option<String>,
    pub viewers: String,
    /// Whether it is open already.
    pub watching: bool,
    /// Whether it can be opened beside what is playing.
    pub adds: bool,
}

pub struct RowView {
    pub login: Seq<char>,
    pub name: Seq<char>,
    pub game: Seq<char>,
    pub picture: Option<Seq<char>>,
    pub viewers: Seq<char>,
    pub watching: bool,
    pub adds: bool,
}

impl View for Row {
    type V = RowView;

    open spec fn view(&self) -> RowView {
        RowView {
            login: self.login@,
            name: self.name@,
            game: self.game@,
            picture: match self.picture {
                Some(url) => Some(url@),
                None => None,
            },
            viewers: self.viewers@,
            watching: self.watching,
            adds: self.adds,
        }
    }
}

/// A picture's URL in the size that is asked for. The size stands in the file
/// name; where it does not, the URL is left as it is.
pub open spec fn sized(url: Seq<char>) -> Seq<char> {
    text::replaced(url, AVATAR_LISTED@, AVATAR_REQUEST@)
}

pub open spec fn row_of(
    stream: LiveStream,
    avatars: Seq<(String, String)>,
    watching: Seq<Seq<char>>,
    can_add: bool,
) -> RowView {
    RowView {
        login: stream.user_login@,
        name: stream.display_name@,
        game: stream.game_name@,
        picture: match follows::picture(avatars, stream.user_login@) {
            Some(url) => Some(sized(url)),
            None => None,
        },
        viewers: browse::viewers(stream.viewer_count as nat),
        watching: watching.contains(stream.user_login@),
        adds: can_add,
    }
}

fn row(stream: &LiveStream, avatars: &Vec<(String, String)>, watching: &[String], can_add: bool)
    -> (r: Row)
    ensures
        r@ == row_of(*stream, avatars@, text::texts(watching@), can_add),
{
    let picture = match follows::avatar(avatars, stream.user_login.as_str()) {
        Some(url) => {
            let from = text::chars_of(AVATAR_LISTED);
            let to = text::chars_of(AVATAR_REQUEST);
            proof {
                reveal_strlit("300x300");
            }
            let chars = text::replace_each(&text::chars_of(url.as_str()), &from, &to);
            Some(text::string_of(&chars))
        },
        None => None,
    };
    Row {
        login: stream.user_login.clone(),
        name: stream.display_name.clone(),
        game: stream.game_name.clone(),
        picture,
        viewers: browse::format_viewers(stream.viewer_count),
        watching: text::listed(watching, stream.user_login.as_str()),
        adds: can_add,
    }
}

/// The channels that live panes are open on. A recording open beside the rail
/// does not make its channel watched.
pub open spec fn live_channels(slots: Seq<Slot>) -> Seq<Seq<char>>
    decreases slots.len(),
{
    if slots.len() == 0 {
        Seq::empty()
    } else if slots.last().source is Live {
        live_channels(slots.drop_last()).push(slots.last().channel@)
    } else {
        live_channels(slots.drop_last())
    }
}

pub fn watched(slots: &Vec<Slot>) -> (r: Vec<String>)
    ensures
        text::texts(r@) == live_channels(slots@),
{
    let mut out: Vec<String> = Vec::new();
    let mut i: usize = 0;
    assert(slots@.take(0) =~= Seq::empty());
    assert(text::texts(out@) =~= Seq::empty());
    while i < slots.len()
        invariant
            i <= slots@.len(),
            text::texts(out@) == live_channels(slots@.take(i as int)),
        decreases slots@.len() - i,
    {
        let ghost before = out@;
        assert(slots@.take(i + 1).drop_last() =~= slots@.take(i as int));
        if slots[i].is_live() {
            out.push(slots[i].channel.clone());
            assert(text::texts(out@) =~= text::texts(before).push(slots@[i as int].channel@));
        }
        i = i + 1;
    }
    assert(slots@.take(slots@.len() as int) =~= slots@);
    out
}

/// The rail's rows, or `None` when it is folded away.
pub fn rail(
    live: &Vec<LiveStream>,
    avatars: &Vec<(String, String)>,
    watching: &[String],
    can_add: bool,
    collapsed: bool,
) -> (r: Option<Vec<Row>>)
    ensures
        r is None <==> collapsed,
        r is Some ==> r->0@.len() == live@.len(),
        r is Some ==> forall|i: int|
            0 <= i < live@.len() ==> (#[trigger] r->0@[i])@ == row_of(
                live@[i],
                avatars@,
                text::texts(watching@),
                can_add,
            ),
{
    if collapsed {
        return None;
    }
    let mut out: Vec<Row> = Vec::new();
    let mut i: usize = 0;
    while i < live.len()
        invariant
            i <= live@.len(),
            out@.len() == i,
            forall|k: int|
                0 <= k < i ==> (#[trigger] out@[k])@ == row_of(
                    live@[k],
                    avatars@,
                    text::texts(watching@),
                    can_add,
                ),
        decreases live@.len() - i,
    {
        out.push(row(&live[i], avatars, watching, can_add));
        i = i + 1;
    }
    Some(out)
}

/// The rail marks exactly the channels that a pane shows live.
pub proof fn law_the_rail_marks_what_is_watched_live(slots: Seq<Slot>, login: Seq<char>)
    ensures
        live_channels(slots).contains(login) <==> exists|i: int|
            0 <= i < slots.len() && (#[trigger] slots[i]).source is Live && slots[i].channel@
                == login,
    decreases slots.len(),
{
    if slots.len() > 0 {
        let front = slots.drop_last();
        law_the_rail_marks_what_is_watched_live(front, login);
        let before = live_channels(front);
        let all = live_channels(slots);
        if all.contains(login) {
            let k = choose|k: int| 0 <= k < all.len() && all[k] == login;
            if k < before.len() {
                assert(before[k] == login);
                let i = choose|i: int|
                    0 <= i < front.len() && (#[trigger] front[i]).source is Live
                        && front[i].channel@ == login;
                assert(slots[i] == front[i]);
            } else {
                assert(slots[slots.len() - 1].channel@ == login);
            }
        }
        if exists|i: int|
            0 <= i < slots.len() && (#[trigger] slots[i]).source is Live && slots[i].channel@
                == login {
            let i = choose|i: int|
                0 <= i < slots.len() && (#[trigger] slots[i]).source is Live && slots[i].channel@
                    == login;
            if i < front.len() {
                assert(front[i] == slots[i]);
                let k = choose|k: int| 0 <= k < before.len() && before[k] == login;
                assert(all[k] == login);
            } else {
                assert(all.last() == login);
            }
        }
    }
}

/// A row of the rail is about its stream, and shows the last picture that came
/// for it.
pub proof fn law_a_row_is_about_its_stream(
    stream: LiveStream,
    avatars: Seq<(String, String)>,
    watching: Seq<Seq<char>>,
    can_add: bool,
)
    ensures
        ({
            let row = row_of(stream, avatars, watching, can_add);
            &&& row.login == stream.user_login@
            &&& row.name == stream.display_name@
            &&& row.game == stream.game_name@
            &&& row.viewers == browse::viewers(stream.viewer_count as nat)
            &&& row.watching <==> watching.contains(stream.user_login@)
            &&& row.adds == can_add
            &&& row.picture is Some <==> follows::picture(avatars, stream.user_login@) is Some
        }),
{
}

/// A picture is asked for at seventy pixels wherever it is listed at three
/// hundred, and what comes before and after in its address is kept.
pub proof fn law_a_picture_is_asked_for_small(front: Seq<char>, back: Seq<char>)
    requires
        !text::occurs(front + "300x300"@.drop_last(), "300x300"@),
        !text::occurs(back, "300x300"@),
    ensures
        sized(front + "300x300"@ + back) == front + "70x70"@ + back,
        sized(back) == back,
    decreases front.len(),
{
    let from = "300x300"@;
    let to = "70x70"@;
    reveal_strlit("300x300");
    let url = front + from + back;
    if front.len() == 0 {
        text::law_text_is_replaced_from_the_left(back, 'a', from, to);
        assert(url =~= from + back);
        assert(front + to + back =~= to + back);
    } else {
        let rest = front.drop_first();
        let before = front + from.drop_last();
        assert forall|i: int| 0 <= i <= (rest + from.drop_last()).len() implies !(#[trigger]
        text::begins((rest + from.drop_last()).skip(i), from)) by {
            assert((rest + from.drop_last()).skip(i) =~= before.skip(i + 1));
            assert(!text::begins(before.skip(i + 1), from));
        }
        law_a_picture_is_asked_for_small(rest, back);
        if text::begins(url, from) {
            assert(before.skip(0) =~= before);
            assert(before.take(7) =~= url.take(7));
            assert(text::begins(before.skip(0), from));
        }
        assert(url =~= seq![front[0]] + (rest + from + back));
        text::law_text_is_replaced_from_the_left(rest + from + back, front[0], from, to);
        assert(seq![front[0]] + (rest + to + back) =~= front + to + back);
    }
}

} // verus!
