//! What the command line asks for, and what is opened for it.

use crate::notices;
use crate::notices::LinkOpening;
use crate::panes::Opening;
use crate::shell::Shell;
use crate::target;
use crate::target::{Target, TargetView};
use crate::text;
use crate::watch::MAX_PANES;
use vstd::prelude::*;
use vstd::string::*;

verus! {

pub const APP_NAME: &'static str = "perch";

pub const VOLUME_WARNING: &'static str = "--volume needs a number from 0 to 100; ignored";

/// What the arguments come to.
#[derive(Debug, Clone, PartialEq, Eq)]
pub struct Launch {
    pub targets: Vec<Target>,
    pub volume: Option<u8>,
    /// What could not be used, to be said in the window.
    pub warnings: Vec<String>,
}

/// A [`Launch`] with its texts as sequences.
pub struct LaunchView {
    pub targets: Seq<TargetView>,
    pub volume: Option<u8>,
    pub warnings: Seq<Seq<char>>,
}

impl View for Launch {
    type V = LaunchView;

    open spec fn view(&self) -> LaunchView {
        LaunchView {
            targets: self.targets@.map_values(|target: Target| target@),
            volume: self.volume,
            warnings: text::texts(self.warnings@),
        }
    }
}

impl LaunchView {
    pub open spec fn warned(self, warning: Seq<char>) -> LaunchView {
        LaunchView { warnings: self.warnings.push(warning), ..self }
    }

    /// This, with one argument more that is no `--volume`.
    pub open spec fn with(self, arg: Seq<char>) -> LaunchView {
        if arg.len() > 0 && arg[0] == '-' {
            self.warned("unknown option "@ + arg + "; ignored"@)
        } else {
            match target::reading(arg) {
                Some(found) => LaunchView { targets: self.targets.push(found), ..self },
                None => self.warned(
                    text::debug_text(arg) + " is not a Twitch channel or recording; skipped"@,
                ),
            }
        }
    }

    /// This, with the volume that `--volume` and the argument behind it set.
    pub open spec fn with_volume(self, value: Option<nat>) -> LaunchView {
        match value {
            Some(level) => LaunchView {
                volume: Some(
                    if level > 100 {
                        100
                    } else {
                        level as u8
                    },
                ),
                ..self
            },
            None => self.warned(VOLUME_WARNING@),
        }
    }

    /// What the arguments come to, read after those that came to this: `None`
    /// where help was asked for.
    pub open spec fn reading(self, args: Seq<Seq<char>>) -> Option<LaunchView>
        decreases args.len(),
    {
        if args.len() == 0 {
            Some(self)
        } else if args[0] == "--volume"@ {
            if args.len() == 1 {
                Some(self.with_volume(None))
            } else {
                self.with_volume(text::unsigned(args[1], 255)).reading(args.skip(2))
            }
        } else if args[0] == "--help"@ || args[0] == "-h"@ {
            None
        } else {
            self.with(args[0]).reading(args.skip(1))
        }
    }
}

pub open spec fn nothing_asked() -> LaunchView {
    LaunchView { targets: Seq::empty(), volume: None, warnings: Seq::empty() }
}

impl Launch {
    fn warn(&mut self, warning: String)
        ensures
            final(self)@ == old(self)@.warned(warning@),
    {
        let ghost before = self.warnings@;
        self.warnings.push(warning);
        assert(text::texts(self.warnings@) =~= text::texts(before).push(warning@));
    }

    fn take(&mut self, arg: &str)
        ensures
            final(self)@ == old(self)@.with(arg@),
    {
        let chars = text::chars_of(arg);
        if chars.len() > 0 && chars[0] == '-' {
            self.warn(text::concat3("unknown option ", arg, "; ignored"));
            return ;
        }
        match target::parse(arg) {
            Some(found) => {
                let ghost before = self.targets@;
                self.targets.push(found);
                assert(self.targets@.map_values(|target: Target| target@) =~= before.map_values(
                    |target: Target| target@,
                ).push(found@));
            },
            None => {
                let name = text::quoted(arg);
                self.warn(
                    text::concat2(name.as_str(), " is not a Twitch channel or recording; skipped"),
                );
            },
        }
    }

    fn set_volume(&mut self, value: Option<u64>)
        requires
            value matches Some(level) ==> level <= 255,
        ensures
            final(self)@ == old(self)@.with_volume(
                match value {
                    Some(level) => Some(level as nat),
                    None => None,
                },
            ),
    {
        match value {
            Some(level) => {
                self.volume = Some(
                    if level > 100 {
                        100
                    } else {
                        level as u8
                    },
                );
            },
            None => self.warn(VOLUME_WARNING.to_string()),
        }
    }
}

/// Read the arguments behind the program's name. `None` where help was asked
/// for.
pub fn read_arguments(args: &Vec<String>) -> (r: Option<Launch>)
    ensures
        match r {
            Some(launch) => nothing_asked().reading(text::texts(args@)) == Some(launch@),
            None => nothing_asked().reading(text::texts(args@)) is None,
        },
{
    let mut launch = Launch { targets: Vec::new(), volume: None, warnings: Vec::new() };
    let ghost all = text::texts(args@);
    assert(launch@.targets =~= Seq::empty());
    assert(launch@.warnings =~= Seq::empty());
    assert(launch@ == nothing_asked());
    let mut i: usize = 0;
    assert(all.skip(0) =~= all);
    while i < args.len()
        invariant
            i <= args@.len(),
            all == text::texts(args@),
            launch@.reading(all.skip(i as int)) == nothing_asked().reading(all),
        decreases args@.len() - i,
    {
        let ghost rest = all.skip(i as int);
        assert(rest[0] == args@[i as int]@);
        let arg = args[i].as_str();
        if text::same(arg, "--volume") {
            if i + 1 >= args.len() {
                assert(rest.len() == 1);
                launch.set_volume(None);
                return Some(launch);
            }
            assert(rest[1] == args@[i + 1]@);
            assert(rest.skip(2) =~= all.skip(i + 2));
            let chars = text::chars_of(args[i + 1].as_str());
            let value = text::unsigned_of(&chars, 255);
            launch.set_volume(value);
            i = i + 2;
        } else if text::same(arg, "--help") || text::same(arg, "-h") {
            return None;
        } else {
            assert(rest.skip(1) =~= all.skip(i + 1));
            launch.take(arg);
            i = i + 1;
        }
    }
    assert(all.skip(i as int) =~= Seq::empty());
    Some(launch)
}

/// A name that nothing is wrong with opens its channel and warns of nothing.
pub proof fn law_a_login_opens_its_channel(before: LaunchView, login: Seq<char>)
    requires
        target::login_like(login),
    ensures
        before.with(login).warnings == before.warnings,
        before.with(login).targets == before.targets.push(TargetView::Channel(text::lower_text(login))),
{
    target::law_a_login_is_its_channel(login);
}

/// Every argument that is no option adds one target or one warning, and takes
/// nothing back.
pub proof fn law_nothing_is_passed_over(before: LaunchView, arg: Seq<char>)
    ensures
        ({
            let after = before.with(arg);
            &&& after.targets.len() + after.warnings.len() == before.targets.len()
                + before.warnings.len() + 1
            &&& after.targets.take(before.targets.len() as int) == before.targets
            &&& after.warnings.take(before.warnings.len() as int) == before.warnings
        }),
{
    let after = before.with(arg);
    assert(after.targets.take(before.targets.len() as int) =~= before.targets);
    assert(after.warnings.take(before.warnings.len() as int) =~= before.warnings);
}

/// What is printed where help is asked for.
pub open spec fn usage_text(log: Seq<char>, settings: Seq<char>) -> Seq<char> {
    "usage: perch [channel...] [--volume 0-100]\n\nA release build is windowed, so this text goes to\n"@
        + log + "\n\nName up to "@ + text::decimal(MAX_PANES as nat)
        + " channels, or twitch.tv links to channels or\nrecordings, to open them side by side.\nWith no channel, opens on the follows page.\nSettings live at "@
        + settings + "\n"@
}

pub fn usage(log: &str, settings: &str) -> (r: String)
    ensures
        r@ == usage_text(log@, settings@),
{
    let mut out =
        "usage: perch [channel...] [--volume 0-100]\n\nA release build is windowed, so this text goes to\n".to_string();
    out.append(log);
    out.append("\n\nName up to ");
    text::push_decimal(&mut out, MAX_PANES as u64);
    out.append(
        " channels, or twitch.tv links to channels or\nrecordings, to open them side by side.\nWith no channel, opens on the follows page.\nSettings live at ",
    );
    out.append(settings);
    out.append("\n");
    out
}

// ── Opening what was named ───────────────────────────────────────────

/// What came of one target.
#[derive(Debug)]
pub enum Launched {
    /// There are no more than so many panes to open targets in.
    Beyond,
    Channel(Opening),
    /// It is opened once Twitch has said what it is.
    Link(LinkOpening),
}

impl Shell {
    /// What opening the target at `index` does. The first channel named is the
    /// only pane so far, if it comes first; the others go beside it.
    pub open spec fn launches(
        self,
        index: int,
        target: Target,
        chat_hidden: bool,
        after: Shell,
        r: Launched,
    ) -> bool {
        if index >= MAX_PANES {
            after == self && r is Beyond
        } else {
            match target {
                Target::Channel(channel) => {
                    &&& r is Channel
                    &&& self.channel_opened(channel, index == 0, chat_hidden, after, r->Channel_0)
                },
                Target::Video { id, start_secs } => {
                    &&& r is Link
                    &&& after == (Shell { links: after.links, ..self })
                    &&& notices::link_opened(
                        self.links@,
                        self.sign_in,
                        id,
                        start_secs,
                        after.links@,
                        r->Link_0,
                    )
                },
            }
        }
    }

    /// Open what the command line named, one target at a time.
    pub fn open_target(&mut self, index: usize, target: Target, chat_hidden: bool) -> (r: Launched)
        requires
            old(self).sound(),
        ensures
            final(self).sound(),
            old(self).launches(index as int, target, chat_hidden, *final(self), r),
    {
        if index >= MAX_PANES {
            return Launched::Beyond;
        }
        match target {
            Target::Channel(channel) => Launched::Channel(
                self.open_channel(channel, index == 0, chat_hidden),
            ),
            Target::Video { id, start_secs } => Launched::Link(
                notices::open_video_link(&mut self.links, &self.sign_in, id, start_secs),
            ),
        }
    }
}

/// A volume that is asked for is the volume, held to the loudest there is, and
/// the last one counts; what is no number is warned of and changes none.
pub proof fn law_a_volume_is_taken_as_asked(
    before: LaunchView,
    level: nat,
    rest: Seq<Seq<char>>,
)
    requires
        level <= 255,
    ensures
        ({
            let args = seq!["--volume"@, text::decimal(level)] + rest;
            let now = LaunchView {
                volume: Some(
                    if level <= 100 {
                        level as u8
                    } else {
                        100
                    },
                ),
                ..before
            };
            before.reading(args) == now.reading(rest)
        }),
        before.reading(seq!["--volume"@]) matches Some(after) && after.volume == before.volume
            && after.warnings.len() == before.warnings.len() + 1 && after.targets == before.targets,
{
    let args = seq!["--volume"@, text::decimal(level)] + rest;
    assert(args[0] == "--volume"@);
    assert(args.skip(2) =~= rest);
    crate::rewritten::lemma_decimal(level);
    assert(text::is_digit(text::decimal(level)[0]));
}

/// Arguments are read one behind the other: what the first came to is what the
/// next is added to; and help, wherever it is asked for, is all there is.
pub proof fn law_arguments_are_read_in_order(before: LaunchView, arg: Seq<char>, rest: Seq<Seq<char>>)
    requires
        arg != "--volume"@,
    ensures
        arg != "--help"@ && arg != "-h"@ ==> before.reading(seq![arg] + rest) == before.with(
            arg,
        ).reading(rest),
        arg == "--help"@ || arg == "-h"@ ==> before.reading(seq![arg] + rest) is None,
        before.reading(Seq::empty()) == Some(before),
{
    let args = seq![arg] + rest;
    assert(args[0] == arg);
    assert(args.skip(1) =~= rest);
}

/// What names somewhere on Twitch is opened, and what does not is warned of; an
/// option that is none is warned of too.
pub proof fn law_an_argument_is_a_target_or_a_warning(before: LaunchView, arg: Seq<char>)
    ensures
        arg.len() > 0 && arg[0] == '-' ==> before.with(arg).targets == before.targets
            && before.with(arg).warnings.len() == before.warnings.len() + 1,
        !(arg.len() > 0 && arg[0] == '-') && target::reading(arg) is Some ==> before.with(
            arg,
        ).targets == before.targets.push(target::reading(arg)->0) && before.with(arg).warnings
            == before.warnings,
        !(arg.len() > 0 && arg[0] == '-') && target::reading(arg) is None ==> before.with(
            arg,
        ).targets == before.targets && before.with(arg).warnings.len() == before.warnings.len() + 1,
        before.with(arg).volume == before.volume,
{
}

/// Of what the command line names, up to four open: the first alone, the others
/// beside it; a recording waits to be looked up, from the moment its link has.
pub proof fn law_what_was_named_opens(
    before: Shell,
    index: int,
    target: Target,
    chat_hidden: bool,
    after: Shell,
    r: Launched,
)
    requires
        before.launches(index, target, chat_hidden, after, r),
        0 <= index,
    ensures
        index >= 4 ==> after == before && r is Beyond,
        index < 4 && target is Channel ==> r is Channel && after.panes.page is Watch,
        index == 0 && target is Channel ==> after.panes.slots@.len() == 1
            && after.panes.slots@[0].key@ == target->Channel_0@,
        0 < index < 4 && target is Channel ==> forall|i: int|
            0 <= i < before.panes.slots@.len() ==> #[trigger] after.panes.slots@[i]
                == before.panes.slots@[i],
        index < 4 && target is Video ==> r is Link && after.panes == before.panes,
        index < 4 && target is Video && r->Link_0 is Queued ==> after.links@.len()
            == before.links@.len() + 1 && after.links@.last().id == target->id
            && after.links@.last().start_secs == target->start_secs,
{
    crate::panes::lemma_places(before.panes.slots@);
}

/// The help says where it is kept, how many panes can be opened, and where the
/// settings are.
pub proof fn law_the_help_says_where_things_are(log: Seq<char>, settings: Seq<char>)
    ensures
        ({
            let front = "usage: perch [channel...] [--volume 0-100]\n\nA release build is windowed, so this text goes to\n"@;
            let names = "\n\nName up to "@ + text::decimal(4)
                + " channels, or twitch.tv links to channels or\nrecordings, to open them side by side.\nWith no channel, opens on the follows page.\nSettings live at "@;
            usage_text(log, settings) == front + log + names + settings + "\n"@
        }),
{
    let front = "usage: perch [channel...] [--volume 0-100]\n\nA release build is windowed, so this text goes to\n"@;
    let names = "\n\nName up to "@ + text::decimal(4)
        + " channels, or twitch.tv links to channels or\nrecordings, to open them side by side.\nWith no channel, opens on the follows page.\nSettings live at "@;
    assert(usage_text(log, settings) =~= front + log + names + settings + "\n"@);
}

/// A warning says which argument it is about, and what became of it.
pub proof fn law_a_warning_says_what_it_is_about(before: LaunchView, arg: Seq<char>)
    ensures
        arg.len() > 0 && arg[0] == '-' ==> before.with(arg).warnings.last() == "unknown option "@
            + arg + "; ignored"@,
        !(arg.len() > 0 && arg[0] == '-') && target::reading(arg) is None ==> before.with(
            arg,
        ).warnings.last() == text::debug_text(arg)
            + " is not a Twitch channel or recording; skipped"@,
        before.with_volume(None).warnings == before.warnings.push(VOLUME_WARNING@),
{
}

} // verus!
