//! Keyboard shortcuts: which keys there are, where they act, and what they
//! stand aside for.

use crate::text;
use vstd::prelude::*;
use vstd::string::*;

verus! {

/// Something a key does.
#[derive(Debug, Clone, Copy, PartialEq, Eq, Structural)]
pub enum KeyAction {
    /// Pause or resume the active pane.
    TogglePlayback,
    /// Mute or unmute the active pane, restoring the previous level.
    ToggleMute,
    VolumeUp,
    VolumeDown,
    /// Show or hide the active pane's chat.
    ToggleChat,
    /// Close the active pane.
    ClosePane,
    /// Leave the watch page.
    GoBrowse,
    /// Open the settings sheet, or close it if it is already open.
    ToggleSettings,
    /// Put the cursor in the search box.
    FocusSearch,
    /// Ask Twitch again for whichever list is on screen.
    Refresh,
}

/// How much one press moves the volume. Coarse on purpose: the slider is where
/// a precise level is set.
pub const VOLUME_STEP: i16 = 5;

// The identifiers a context is built from, and that a predicate tests for. A
// context is identifiers with spaces between them, while a predicate is a
// boolean expression over them.

pub const APP: &'static str = "Perch";

pub const WATCH: &'static str = "Watch";

pub const BROWSE: &'static str = "Browse";

pub const MODAL: &'static str = "Modal";

/// What the shell reports while watching, while browsing, and with a sheet
/// open. The sheet replaces the page's name rather than adding to it, so a
/// shortcut of a page cannot fire through it.
pub const CONTEXT_WATCH: &'static str = "Perch Watch";

pub const CONTEXT_BROWSE: &'static str = "Perch Browse";

pub const CONTEXT_MODAL: &'static str = "Perch Modal";

/// Everything that claims keys for itself while it is focused. A key guarded by
/// this cannot swallow what was meant for a text field or a menu.
pub const TYPING: &'static str = "!Input && !Select && !PopupMenu";

/// Where a key acts.
#[derive(Debug, Clone, Copy, PartialEq, Eq, Structural)]
pub enum Scope {
    Anywhere,
    Watching,
    Browsing,
    InSheet,
}

/// The predicate of a scope. Every one of them stands aside for typing.
pub open spec fn tested(scope: Scope) -> Seq<char> {
    match scope {
        Scope::Anywhere => "Perch"@ + " && "@ + TYPING@,
        Scope::Watching => "Perch"@ + " && "@ + "Watch"@ + " && "@ + TYPING@,
        Scope::Browsing => "Perch"@ + " && "@ + "Browse"@ + " && "@ + TYPING@,
        Scope::InSheet => "Perch"@ + " && "@ + "Modal"@ + " && "@ + TYPING@,
    }
}

pub fn predicate(scope: Scope) -> (r: String)
    ensures
        r@ == tested(scope),
{
    let mut out = text::concat2(APP, " && ");
    match scope {
        Scope::Anywhere => {},
        Scope::Watching => {
            out.append(WATCH);
            out.append(" && ");
        },
        Scope::Browsing => {
            out.append(BROWSE);
            out.append(" && ");
        },
        Scope::InSheet => {
            out.append(MODAL);
            out.append(" && ");
        },
    }
    out.append(TYPING);
    out
}

/// One key, what it does, and where.
#[derive(Debug, Clone, Copy, PartialEq, Eq)]
pub struct Binding {
    pub key: &'static str,
    pub action: KeyAction,
    pub scope: Scope,
}

/// The keymap: each key, what it does, and where.
pub open spec fn keymap() -> Seq<(Seq<char>, KeyAction, Scope)> {
    seq![
        ("space"@, KeyAction::TogglePlayback, Scope::Watching),
        ("m"@, KeyAction::ToggleMute, Scope::Watching),
        ("c"@, KeyAction::ToggleChat, Scope::Watching),
        ("up"@, KeyAction::VolumeUp, Scope::Watching),
        ("down"@, KeyAction::VolumeDown, Scope::Watching),
        ("ctrl-w"@, KeyAction::ClosePane, Scope::Watching),
        ("escape"@, KeyAction::GoBrowse, Scope::Watching),
        ("ctrl-f"@, KeyAction::FocusSearch, Scope::Browsing),
        ("ctrl-,"@, KeyAction::ToggleSettings, Scope::Anywhere),
        ("ctrl-r"@, KeyAction::Refresh, Scope::Browsing),
        ("escape"@, KeyAction::ToggleSettings, Scope::InSheet),
    ]
}

pub open spec fn bound(list: Seq<Binding>) -> Seq<(Seq<char>, KeyAction, Scope)> {
    Seq::new(list.len(), |i: int| (list[i].key@, list[i].action, list[i].scope))
}

/// The keymap.
pub fn bindings() -> (r: Vec<Binding>)
    ensures
        bound(r@) == keymap(),
{
    let mut out: Vec<Binding> = Vec::new();
    out.push(
        Binding { key: "space", action: KeyAction::TogglePlayback, scope: Scope::Watching },
    );
    out.push(Binding { key: "m", action: KeyAction::ToggleMute, scope: Scope::Watching });
    out.push(Binding { key: "c", action: KeyAction::ToggleChat, scope: Scope::Watching });
    out.push(Binding { key: "up", action: KeyAction::VolumeUp, scope: Scope::Watching });
    out.push(Binding { key: "down", action: KeyAction::VolumeDown, scope: Scope::Watching });
    out.push(Binding { key: "ctrl-w", action: KeyAction::ClosePane, scope: Scope::Watching });
    out.push(Binding { key: "escape", action: KeyAction::GoBrowse, scope: Scope::Watching });
    out.push(Binding { key: "ctrl-f", action: KeyAction::FocusSearch, scope: Scope::Browsing });
    out.push(Binding { key: "ctrl-,", action: KeyAction::ToggleSettings, scope: Scope::Anywhere });
    out.push(Binding { key: "ctrl-r", action: KeyAction::Refresh, scope: Scope::Browsing });
    out.push(Binding { key: "escape", action: KeyAction::ToggleSettings, scope: Scope::InSheet });
    assert(bound(out@) =~= keymap());
    out
}

/// One line of the listing in the settings sheet: the keys as they are bound,
/// how they are shown, and what they do.
#[derive(Debug, Clone)]
pub struct Shortcut {
    pub keys: Vec<&'static str>,
    pub display: &'static str,
    pub description: &'static str,
}

pub open spec fn key_texts(keys: Seq<&'static str>) -> Seq<Seq<char>> {
    Seq::new(keys.len(), |i: int| keys[i]@)
}

pub open spec fn shown(list: Seq<Shortcut>) -> Seq<(Seq<Seq<char>>, Seq<char>, Seq<char>)> {
    Seq::new(
        list.len(),
        |i: int| (key_texts(list[i].keys@), list[i].display@, list[i].description@),
    )
}

/// What the settings sheet lists.
pub open spec fn listing() -> Seq<(Seq<Seq<char>>, Seq<char>, Seq<char>)> {
    seq![
        (seq!["space"@], "Space"@, "Pause or resume"@),
        (seq!["m"@], "M"@, "Mute or unmute"@),
        (seq!["c"@], "C"@, "Show or hide this chat"@),
        (seq!["up"@, "down"@], "↑ / ↓"@, "Volume"@),
        (seq!["ctrl-w"@], "Ctrl+W"@, "Close this pane"@),
        (seq!["escape"@], "Esc"@, "Back to follows"@),
        (seq!["ctrl-f"@], "Ctrl+F"@, "Search"@),
        (seq!["ctrl-r"@], "Ctrl+R"@, "Refresh this list"@),
        (seq!["ctrl-,"@], "Ctrl+,"@, "Settings"@),
    ]
}

fn one(key: &'static str) -> (r: Vec<&'static str>)
    ensures
        key_texts(r@) == seq![key@],
{
    let mut keys: Vec<&'static str> = Vec::new();
    keys.push(key);
    assert(key_texts(keys@) =~= seq![key@]);
    keys
}

/// What the settings sheet lists, so that a shortcut can be found.
pub fn shortcuts() -> (r: Vec<Shortcut>)
    ensures
        shown(r@) == listing(),
{
    let mut arrows: Vec<&'static str> = Vec::new();
    arrows.push("up");
    arrows.push("down");
    assert(key_texts(arrows@) =~= seq!["up"@, "down"@]);
    let mut out: Vec<Shortcut> = Vec::new();
    out.push(
        Shortcut { keys: one("space"), display: "Space", description: "Pause or resume" },
    );
    out.push(Shortcut { keys: one("m"), display: "M", description: "Mute or unmute" });
    out.push(Shortcut { keys: one("c"), display: "C", description: "Show or hide this chat" });
    out.push(Shortcut { keys: arrows, display: "↑ / ↓", description: "Volume" });
    out.push(Shortcut { keys: one("ctrl-w"), display: "Ctrl+W", description: "Close this pane" });
    out.push(Shortcut { keys: one("escape"), display: "Esc", description: "Back to follows" });
    out.push(Shortcut { keys: one("ctrl-f"), display: "Ctrl+F", description: "Search" });
    out.push(
        Shortcut { keys: one("ctrl-r"), display: "Ctrl+R", description: "Refresh this list" },
    );
    out.push(Shortcut { keys: one("ctrl-,"), display: "Ctrl+,", description: "Settings" });
    assert(shown(out@) =~= listing());
    out
}

/// A key is bound somewhere.
pub open spec fn is_bound(key: Seq<char>) -> bool {
    exists|i: int| 0 <= i < keymap().len() && (#[trigger] keymap()[i]).0 == key
}

/// Every key that the settings sheet lists does something, and every line of
/// it says what.
pub proof fn law_every_listed_key_is_bound(line: int, key: int)
    requires
        0 <= line < listing().len(),
        0 <= key < listing()[line].0.len(),
    ensures
        is_bound(listing()[line].0[key]),
        listing()[line].1.len() > 0,
        listing()[line].2.len() > 0,
{
    let k = keymap();
    assert(k[0].0 == "space"@ && k[1].0 == "m"@ && k[2].0 == "c"@ && k[3].0 == "up"@ && k[4].0
        == "down"@ && k[5].0 == "ctrl-w"@ && k[6].0 == "escape"@ && k[7].0 == "ctrl-f"@ && k[8].0
        == "ctrl-,"@ && k[9].0 == "ctrl-r"@);
    reveal_strlit("Space");
    reveal_strlit("Pause or resume");
    reveal_strlit("M");
    reveal_strlit("Mute or unmute");
    reveal_strlit("C");
    reveal_strlit("Show or hide this chat");
    reveal_strlit("↑ / ↓");
    reveal_strlit("Volume");
    reveal_strlit("Ctrl+W");
    reveal_strlit("Close this pane");
    reveal_strlit("Esc");
    reveal_strlit("Back to follows");
    reveal_strlit("Ctrl+F");
    reveal_strlit("Search");
    reveal_strlit("Ctrl+R");
    reveal_strlit("Refresh this list");
    reveal_strlit("Ctrl+,");
    reveal_strlit("Settings");
}

/// The contexts are made of the identifiers that the predicates test for.
pub proof fn law_contexts_are_made_of_what_is_tested_for()
    ensures
        CONTEXT_WATCH@ == APP@ + " "@ + WATCH@,
        CONTEXT_BROWSE@ == APP@ + " "@ + BROWSE@,
        CONTEXT_MODAL@ == APP@ + " "@ + MODAL@,
{
    reveal_strlit("Perch");
    reveal_strlit("Watch");
    reveal_strlit("Browse");
    reveal_strlit("Modal");
    reveal_strlit(" ");
    reveal_strlit("Perch Watch");
    reveal_strlit("Perch Browse");
    reveal_strlit("Perch Modal");
    assert(CONTEXT_WATCH@ =~= APP@ + " "@ + WATCH@);
    assert(CONTEXT_BROWSE@ =~= APP@ + " "@ + BROWSE@);
    assert(CONTEXT_MODAL@ =~= APP@ + " "@ + MODAL@);
}

/// What each key does, and where: a page's keys only on that page, the sheet's
/// only in the sheet, and there are no others.
pub proof fn law_each_key_does_its_work()
    ensures
        keymap().contains(("space"@, KeyAction::TogglePlayback, Scope::Watching)),
        keymap().contains(("m"@, KeyAction::ToggleMute, Scope::Watching)),
        keymap().contains(("c"@, KeyAction::ToggleChat, Scope::Watching)),
        keymap().contains(("up"@, KeyAction::VolumeUp, Scope::Watching)),
        keymap().contains(("down"@, KeyAction::VolumeDown, Scope::Watching)),
        keymap().contains(("ctrl-w"@, KeyAction::ClosePane, Scope::Watching)),
        keymap().contains(("escape"@, KeyAction::GoBrowse, Scope::Watching)),
        keymap().contains(("ctrl-f"@, KeyAction::FocusSearch, Scope::Browsing)),
        keymap().contains(("ctrl-r"@, KeyAction::Refresh, Scope::Browsing)),
        keymap().contains(("ctrl-,"@, KeyAction::ToggleSettings, Scope::Anywhere)),
        keymap().contains(("escape"@, KeyAction::ToggleSettings, Scope::InSheet)),
        keymap().len() == 11,
{
    let k = keymap();
    assert(k[0] == ("space"@, KeyAction::TogglePlayback, Scope::Watching));
    assert(k[1] == ("m"@, KeyAction::ToggleMute, Scope::Watching));
    assert(k[2] == ("c"@, KeyAction::ToggleChat, Scope::Watching));
    assert(k[3] == ("up"@, KeyAction::VolumeUp, Scope::Watching));
    assert(k[4] == ("down"@, KeyAction::VolumeDown, Scope::Watching));
    assert(k[5] == ("ctrl-w"@, KeyAction::ClosePane, Scope::Watching));
    assert(k[6] == ("escape"@, KeyAction::GoBrowse, Scope::Watching));
    assert(k[7] == ("ctrl-f"@, KeyAction::FocusSearch, Scope::Browsing));
    assert(k[8] == ("ctrl-,"@, KeyAction::ToggleSettings, Scope::Anywhere));
    assert(k[9] == ("ctrl-r"@, KeyAction::Refresh, Scope::Browsing));
    assert(k[10] == ("escape"@, KeyAction::ToggleSettings, Scope::InSheet));
}

/// No key fires while something is typed into, and each only where it is meant.
pub proof fn law_no_key_fires_while_typing(scope: Scope)
    ensures
        tested(Scope::Anywhere) == "Perch"@ + " && "@ + TYPING@,
        tested(Scope::Watching) == "Perch"@ + " && "@ + "Watch"@ + " && "@ + TYPING@,
        tested(Scope::Browsing) == "Perch"@ + " && "@ + "Browse"@ + " && "@ + TYPING@,
        tested(Scope::InSheet) == "Perch"@ + " && "@ + "Modal"@ + " && "@ + TYPING@,
        tested(scope).len() >= TYPING@.len(),
        tested(scope).skip(tested(scope).len() - TYPING@.len()) == TYPING@,
{
    let s = tested(scope);
    assert(s.skip(s.len() - TYPING@.len()) =~= TYPING@);
}

} // verus!
