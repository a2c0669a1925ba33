//! The icons the widget library asks for by path. They are stroked in flat
//! black: a renderer keeps only the mask and tints it.

use crate::text;
use vstd::prelude::*;
use vstd::string::*;

verus! {

pub const CHEVRON_DOWN: &'static str = "<svg xmlns=\"http://www.w3.org/2000/svg\" viewBox=\"0 0 24 24\" fill=\"none\" stroke=\"black\" stroke-width=\"2\" stroke-linecap=\"round\" stroke-linejoin=\"round\"><path d=\"m6 9 6 6 6-6\"/></svg>";

pub const CHEVRON_LEFT: &'static str = "<svg xmlns=\"http://www.w3.org/2000/svg\" viewBox=\"0 0 24 24\" fill=\"none\" stroke=\"black\" stroke-width=\"2\" stroke-linecap=\"round\" stroke-linejoin=\"round\"><path d=\"m15 6-6 6 6 6\"/></svg>";

pub const CHEVRON_RIGHT: &'static str = "<svg xmlns=\"http://www.w3.org/2000/svg\" viewBox=\"0 0 24 24\" fill=\"none\" stroke=\"black\" stroke-width=\"2\" stroke-linecap=\"round\" stroke-linejoin=\"round\"><path d=\"m9 6 6 6-6 6\"/></svg>";

pub const CHEVRON_UP: &'static str = "<svg xmlns=\"http://www.w3.org/2000/svg\" viewBox=\"0 0 24 24\" fill=\"none\" stroke=\"black\" stroke-width=\"2\" stroke-linecap=\"round\" stroke-linejoin=\"round\"><path d=\"m6 15 6-6 6 6\"/></svg>";

pub const CIRCLE_X: &'static str = "<svg xmlns=\"http://www.w3.org/2000/svg\" viewBox=\"0 0 24 24\" fill=\"none\" stroke=\"black\" stroke-width=\"2\" stroke-linecap=\"round\" stroke-linejoin=\"round\"><path d=\"M12 3a9 9 0 1 0 0 18 9 9 0 0 0 0-18M9 9l6 6M15 9l-6 6\"/></svg>";

pub const CLOSE: &'static str = "<svg xmlns=\"http://www.w3.org/2000/svg\" viewBox=\"0 0 24 24\" fill=\"none\" stroke=\"black\" stroke-width=\"2\" stroke-linecap=\"round\" stroke-linejoin=\"round\"><path d=\"M6 6l12 12M18 6 6 18\"/></svg>";

pub const EYE: &'static str = "<svg xmlns=\"http://www.w3.org/2000/svg\" viewBox=\"0 0 24 24\" fill=\"none\" stroke=\"black\" stroke-width=\"2\" stroke-linecap=\"round\" stroke-linejoin=\"round\"><path d=\"M2 12c3-5 6-7 10-7s7 2 10 7c-3 5-6 7-10 7s-7-2-10-7M12 9a3 3 0 1 0 0 6 3 3 0 0 0 0-6\"/></svg>";

pub const INBOX: &'static str = "<svg xmlns=\"http://www.w3.org/2000/svg\" viewBox=\"0 0 24 24\" fill=\"none\" stroke=\"black\" stroke-width=\"2\" stroke-linecap=\"round\" stroke-linejoin=\"round\"><path d=\"M3 13h5l2 3h4l2-3h5M5 5h14l2 8v6H3v-6z\"/></svg>";

pub const MINUS: &'static str = "<svg xmlns=\"http://www.w3.org/2000/svg\" viewBox=\"0 0 24 24\" fill=\"none\" stroke=\"black\" stroke-width=\"2\" stroke-linecap=\"round\" stroke-linejoin=\"round\"><path d=\"M5 12h14\"/></svg>";

pub const PLUS: &'static str = "<svg xmlns=\"http://www.w3.org/2000/svg\" viewBox=\"0 0 24 24\" fill=\"none\" stroke=\"black\" stroke-width=\"2\" stroke-linecap=\"round\" stroke-linejoin=\"round\"><path d=\"M12 5v14M5 12h14\"/></svg>";

pub const SEARCH: &'static str = "<svg xmlns=\"http://www.w3.org/2000/svg\" viewBox=\"0 0 24 24\" fill=\"none\" stroke=\"black\" stroke-width=\"2\" stroke-linecap=\"round\" stroke-linejoin=\"round\"><path d=\"M11 4a7 7 0 1 0 0 14 7 7 0 0 0 0-14M16 16l4 4\"/></svg>";

/// The path a widget asks for, and the drawing it gets. What is not here is
/// answered with nothing, which a widget draws as a blank.
pub open spec fn table() -> Seq<(Seq<char>, Seq<char>)> {
    seq![
        ("icons/chevron-down.svg"@, CHEVRON_DOWN@),
        ("icons/chevron-left.svg"@, CHEVRON_LEFT@),
        ("icons/chevron-right.svg"@, CHEVRON_RIGHT@),
        ("icons/chevron-up.svg"@, CHEVRON_UP@),
        ("icons/circle-x.svg"@, CIRCLE_X@),
        ("icons/close.svg"@, CLOSE@),
        ("icons/eye.svg"@, EYE@),
        ("icons/inbox.svg"@, INBOX@),
        ("icons/minus.svg"@, MINUS@),
        ("icons/plus.svg"@, PLUS@),
        ("icons/search.svg"@, SEARCH@),
    ]
}

pub fn all() -> (r: Vec<(&'static str, &'static str)>)
    ensures
        r@.map_values(|icon: (&'static str, &'static str)| (icon.0@, icon.1@)) == table(),
{
    let mut out: Vec<(&'static str, &'static str)> = Vec::new();
    out.push(("icons/chevron-down.svg", CHEVRON_DOWN));
    out.push(("icons/chevron-left.svg", CHEVRON_LEFT));
    out.push(("icons/chevron-right.svg", CHEVRON_RIGHT));
    out.push(("icons/chevron-up.svg", CHEVRON_UP));
    out.push(("icons/circle-x.svg", CIRCLE_X));
    out.push(("icons/close.svg", CLOSE));
    out.push(("icons/eye.svg", EYE));
    out.push(("icons/inbox.svg", INBOX));
    out.push(("icons/minus.svg", MINUS));
    out.push(("icons/plus.svg", PLUS));
    out.push(("icons/search.svg", SEARCH));
    assert(out@.map_values(|icon: (&'static str, &'static str)| (icon.0@, icon.1@)) =~= table());
    out
}

/// The drawing that a list of icons has at a path.
pub open spec fn drawn(icons: Seq<(Seq<char>, Seq<char>)>, path: Seq<char>) -> Option<Seq<char>>
    decreases icons.len(),
{
    if icons.len() == 0 {
        None
    } else if icons[0].0 == path {
        Some(icons[0].1)
    } else {
        drawn(icons.skip(1), path)
    }
}

/// The paths of a list of icons that begin with `prefix`, in order.
pub open spec fn paths_under(icons: Seq<(Seq<char>, Seq<char>)>, prefix: Seq<char>) -> Seq<Seq<char>>
    decreases icons.len(),
{
    if icons.len() == 0 {
        Seq::empty()
    } else {
        let rest = paths_under(icons.drop_last(), prefix);
        if text::begins(icons.last().0, prefix) {
            rest.push(icons.last().0)
        } else {
            rest
        }
    }
}

/// What the application is handed to find its icons with.
#[derive(Debug, Clone, Copy, PartialEq, Eq)]
pub struct Icons;

impl Icons {
    pub fn load(&self, path: &str) -> (r: Option<&'static str>)
        ensures
            r is Some <==> drawn(table(), path@) is Some,
            r is Some ==> drawn(table(), path@) == Some(r->0@),
    {
        let icons = all();
        let ghost views = icons@.map_values(|icon: (&'static str, &'static str)| (icon.0@, icon.1@));
        let mut i: usize = 0;
        assert(views.skip(0) =~= views);
        while i < icons.len()
            invariant
                i <= icons@.len(),
                views == icons@.map_values(|icon: (&'static str, &'static str)| (icon.0@, icon.1@)),
                views == table(),
                drawn(views.skip(i as int), path@) == drawn(views, path@),
            decreases icons@.len() - i,
        {
            assert(views.skip(i as int)[0] == (icons@[i as int].0@, icons@[i as int].1@));
            assert(views.skip(i as int).skip(1) =~= views.skip(i + 1));
            if text::same(icons[i].0, path) {
                return Some(icons[i].1);
            }
            i = i + 1;
        }
        None
    }

    pub fn list(&self, path: &str) -> (r: Vec<String>)
        ensures
            text::texts(r@) == paths_under(table(), path@),
    {
        let icons = all();
        let ghost views = icons@.map_values(|icon: (&'static str, &'static str)| (icon.0@, icon.1@));
        let prefix = text::chars_of(path);
        let mut out: Vec<String> = Vec::new();
        let mut i: usize = 0;
        assert(views.take(0) =~= Seq::empty());
        assert(text::texts(out@) =~= Seq::empty());
        while i < icons.len()
            invariant
                i <= icons@.len(),
                views == icons@.map_values(|icon: (&'static str, &'static str)| (icon.0@, icon.1@)),
                prefix@ == path@,
                text::texts(out@) == paths_under(views.take(i as int), path@),
            decreases icons@.len() - i,
        {
            let ghost before = out@;
            assert(views.take(i + 1).drop_last() =~= views.take(i as int));
            assert(views.take(i + 1).last() == (icons@[i as int].0@, icons@[i as int].1@));
            let chars = text::chars_of(icons[i].0);
            if text::begins_with(&chars, &prefix) {
                let name = icons[i].0.to_string();
                out.push(name);
                assert(text::texts(out@) =~= text::texts(before).push(name@));
            }
            i = i + 1;
        }
        assert(views.take(views.len() as int) =~= views);
        out
    }
}

/// No two icons share a path, so that each is found at its own.
pub proof fn law_each_icon_is_found_at_its_path(i: int)
    requires
        0 <= i < table().len(),
    ensures
        drawn(table(), table()[i].0) == Some(table()[i].1),
{
    lemma_paths_differ();
    lemma_drawn(table(), i);
}

proof fn lemma_drawn(icons: Seq<(Seq<char>, Seq<char>)>, i: int)
    requires
        0 <= i < icons.len(),
        forall|a: int, b: int| 0 <= a < b < icons.len() ==> icons[a].0 != icons[b].0,
    ensures
        drawn(icons, icons[i].0) == Some(icons[i].1),
    decreases i,
{
    if i > 0 {
        lemma_drawn(icons.skip(1), i - 1);
    }
}

/// The letters of a path that tell the icons apart.
spec fn mark(path: Seq<char>) -> (nat, char, char) {
    (path.len(), path[6], path[path.len() - 5])
}

proof fn lemma_paths_differ()
    ensures
        forall|a: int, b: int| 0 <= a < b < table().len() ==> table()[a].0 != table()[b].0,
{
    reveal_strlit("icons/chevron-down.svg");
    reveal_strlit("icons/chevron-left.svg");
    reveal_strlit("icons/chevron-right.svg");
    reveal_strlit("icons/chevron-up.svg");
    reveal_strlit("icons/circle-x.svg");
    reveal_strlit("icons/close.svg");
    reveal_strlit("icons/eye.svg");
    reveal_strlit("icons/inbox.svg");
    reveal_strlit("icons/minus.svg");
    reveal_strlit("icons/plus.svg");
    reveal_strlit("icons/search.svg");
    assert forall|a: int, b: int| 0 <= a < b < table().len() implies table()[a].0 != table()[b].0 by {
        assert(mark(table()[a].0) != mark(table()[b].0));
    }
}

/// What is drawn at a path is the drawing of that name.
pub proof fn law_each_path_draws_what_it_names()
    ensures
        drawn(table(), "icons/chevron-down.svg"@) == Some(CHEVRON_DOWN@),
        drawn(table(), "icons/chevron-left.svg"@) == Some(CHEVRON_LEFT@),
        drawn(table(), "icons/chevron-right.svg"@) == Some(CHEVRON_RIGHT@),
        drawn(table(), "icons/chevron-up.svg"@) == Some(CHEVRON_UP@),
        drawn(table(), "icons/circle-x.svg"@) == Some(CIRCLE_X@),
        drawn(table(), "icons/close.svg"@) == Some(CLOSE@),
        drawn(table(), "icons/eye.svg"@) == Some(EYE@),
        drawn(table(), "icons/inbox.svg"@) == Some(INBOX@),
        drawn(table(), "icons/minus.svg"@) == Some(MINUS@),
        drawn(table(), "icons/plus.svg"@) == Some(PLUS@),
        drawn(table(), "icons/search.svg"@) == Some(SEARCH@),
{
    assert forall|i: int| 0 <= i < 11 implies #[trigger] drawn(table(), table()[i].0) == Some(
        table()[i].1,
    ) by {
        law_each_icon_is_found_at_its_path(i);
    }
    assert(table()[0].0 == "icons/chevron-down.svg"@);
    assert(table()[1].0 == "icons/chevron-left.svg"@);
    assert(table()[2].0 == "icons/chevron-right.svg"@);
    assert(table()[3].0 == "icons/chevron-up.svg"@);
    assert(table()[4].0 == "icons/circle-x.svg"@);
    assert(table()[5].0 == "icons/close.svg"@);
    assert(table()[6].0 == "icons/eye.svg"@);
    assert(table()[7].0 == "icons/inbox.svg"@);
    assert(table()[8].0 == "icons/minus.svg"@);
    assert(table()[9].0 == "icons/plus.svg"@);
    assert(table()[10].0 == "icons/search.svg"@);
}

/// A listing under a prefix holds every path that begins with it, and no other.
pub proof fn law_a_listing_holds_what_is_under_it(
    icons: Seq<(Seq<char>, Seq<char>)>,
    prefix: Seq<char>,
    path: Seq<char>,
)
    ensures
        paths_under(icons, prefix).contains(path) <==> text::begins(path, prefix) && exists|i: int|
            0 <= i < icons.len() && (#[trigger] icons[i]).0 == path,
    decreases icons.len(),
{
    if icons.len() > 0 {
        let rest = icons.drop_last();
        let before = paths_under(rest, prefix);
        let all = paths_under(icons, prefix);
        law_a_listing_holds_what_is_under_it(rest, prefix, path);
        if all.contains(path) {
            let k = choose|k: int| 0 <= k < all.len() && all[k] == path;
            if k < before.len() {
                assert(before[k] == path);
                let i = choose|i: int| 0 <= i < rest.len() && (#[trigger] rest[i]).0 == path;
                assert(icons[i].0 == path);
            } else {
                assert(icons[icons.len() - 1].0 == path);
            }
        }
        if text::begins(path, prefix) && exists|i: int|
            0 <= i < icons.len() && (#[trigger] icons[i]).0 == path {
            let i = choose|i: int| 0 <= i < icons.len() && (#[trigger] icons[i]).0 == path;
            if i < rest.len() {
                assert(rest[i].0 == path);
                let k = choose|k: int| 0 <= k < before.len() && before[k] == path;
                assert(all[k] == path);
            } else {
                assert(all[all.len() - 1] == path);
            }
        }
    }
}

} // verus!
