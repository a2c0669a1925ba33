//! What Twitch's API says about streams, channels, categories and recordings,
//! as plain values.

use crate::text;
use vstd::prelude::*;

verus! {

/// A channel broadcasting right now.
#[derive(Debug, Clone, PartialEq, Eq)]
pub struct LiveStream {
    pub user_login: String,
    pub user_id: String,
    pub display_name: String,
    pub title: String,
    pub game_name: String,
    pub viewer_count: u64,
    pub thumbnail_url: String,
    /// RFC 3339.
    pub started_at: String,
}

/// A channel the user follows, live or not.
#[derive(Debug, Clone, PartialEq, Eq)]
pub struct FollowedChannel {
    pub login: String,
    pub user_id: String,
    pub display_name: String,
}

/// A category that streams are filed under.
#[derive(Debug, Clone, PartialEq, Eq)]
pub struct Category {
    pub id: String,
    pub name: String,
    pub box_art_url: String,
}

/// What kind of recording a video is.
#[derive(Debug, Clone, Copy, PartialEq, Eq, Structural)]
pub enum VideoKind {
    /// A whole past broadcast.
    Archive,
    /// Cut from ranges of a broadcast.
    Highlight,
    /// Put up by hand.
    Upload,
}

/// A recording.
#[derive(Debug, Clone, PartialEq, Eq)]
pub struct Video {
    pub id: String,
    pub stream_id: Option<String>,
    pub user_id: String,
    pub user_login: String,
    pub user_name: String,
    pub title: String,
    /// RFC 3339.
    pub created_at: String,
    pub length_secs: u64,
    pub thumbnail_url: String,
    pub view_count: u64,
    pub kind: VideoKind,
}

/// A text that may not be there, once more.
pub fn copy_option(text: &Option<String>) -> (r: Option<String>)
    ensures
        r == *text,
{
    match text {
        Some(text) => Some(text.clone()),
        None => None,
    }
}

/// A category, once more.
pub fn copy_category(category: &Category) -> (r: Category)
    ensures
        r == *category,
{
    Category {
        id: category.id.clone(),
        name: category.name.clone(),
        box_art_url: category.box_art_url.clone(),
    }
}

/// The first stream of `list` that is of this channel.
pub open spec fn stream_of(list: Seq<LiveStream>, login: Seq<char>) -> Option<LiveStream>
    decreases list.len(),
{
    if list.len() == 0 {
        None
    } else if list[0].user_login@ == login {
        Some(list[0])
    } else {
        stream_of(list.drop_first(), login)
    }
}

/// What is found is of that channel and the first that is; and nothing is found
/// only where nothing is.
pub proof fn lemma_stream_of(list: Seq<LiveStream>, login: Seq<char>)
    ensures
        match stream_of(list, login) {
            Some(stream) => exists|j: int|
                0 <= j < list.len() && #[trigger] list[j] == stream && list[j].user_login@ == login
                    && forall|k: int| 0 <= k < j ==> (#[trigger] list[k]).user_login@ != login,
            None => forall|j: int| 0 <= j < list.len() ==> (#[trigger] list[j]).user_login@ != login,
        },
    decreases list.len(),
{
    if list.len() > 0 && list[0].user_login@ != login {
        let rest = list.drop_first();
        lemma_stream_of(rest, login);
        match stream_of(rest, login) {
            Some(stream) => {
                let j = choose|j: int|
                    0 <= j < rest.len() && #[trigger] rest[j] == stream && rest[j].user_login@
                        == login && forall|k: int|
                        0 <= k < j ==> (#[trigger] rest[k]).user_login@ != login;
                assert(list[j + 1] == stream);
                assert forall|k: int| 0 <= k < j + 1 implies (#[trigger] list[k]).user_login@
                    != login by {
                    if k > 0 {
                        assert(rest[k - 1].user_login@ != login);
                    }
                }
            },
            None => {
                assert forall|j: int| 0 <= j < list.len() implies (#[trigger] list[j]).user_login@
                    != login by {
                    if j > 0 {
                        assert(rest[j - 1].user_login@ != login);
                    }
                }
            },
        }
    }
}

/// Looking through one list and then another is looking through both.
pub proof fn lemma_stream_of_both(a: Seq<LiveStream>, b: Seq<LiveStream>, login: Seq<char>)
    ensures
        stream_of(a + b, login) == (if stream_of(a, login) is Some {
            stream_of(a, login)
        } else {
            stream_of(b, login)
        }),
    decreases a.len(),
{
    if a.len() == 0 {
        assert(a + b =~= b);
    } else {
        assert((a + b)[0] == a[0]);
        assert((a + b).drop_first() =~= a.drop_first() + b);
        lemma_stream_of_both(a.drop_first(), b, login);
    }
}

pub fn find_stream<'a>(list: &'a Vec<LiveStream>, login: &str) -> (r: Option<&'a LiveStream>)
    ensures
        match r {
            Some(stream) => stream_of(list@, login@) == Some(*stream),
            None => stream_of(list@, login@) is None,
        },
{
    let mut i: usize = 0;
    assert(list@.skip(0) =~= list@);
    while i < list.len()
        invariant
            i <= list@.len(),
            stream_of(list@.skip(i as int), login@) == stream_of(list@, login@),
        decreases list.len() - i,
    {
        assert(list@.skip(i as int)[0] == list@[i as int]);
        assert(list@.skip(i as int).drop_first() =~= list@.skip(i + 1));
        if text::same(list[i].user_login.as_str(), login) {
            return Some(&list[i]);
        }
        i += 1;
    }
    None
}

} // verus!
