//! The controls on top of a pane's video: its volume, whether it plays, and
//! whether its control bar is up.

use crate::seek_bar;
use crate::seek_bar::Timeline;
use crate::text;
use crate::video;
use vstd::prelude::*;
use vstd::string::*;

verus! {

/// The labels of the row of buttons.
#[derive(Debug, Clone, PartialEq, Eq)]
pub struct Buttons {
    pub playback: &'static str,
    pub sound: &'static str,
    pub level: String,
}

/// The seek bar: how much of it is played and where its thumb is held, in
/// [`seek_bar::WHOLE`]ths, and the times at its ends.
#[derive(Debug, Clone, PartialEq, Eq)]
pub struct SeekRow {
    pub played: u32,
    pub scrub: Option<u32>,
    pub position: String,
    pub extent: String,
}

/// What a player's controls know.
#[derive(Debug, Clone, Copy, PartialEq, Eq)]
pub struct Player {
    /// 0-100.
    pub volume: u8,
    /// Volume before muting, so that unmuting restores rather than guesses.
    pub volume_before_mute: u8,
    /// Volume to restore when coming back to the foreground.
    pub volume_before_background: u8,
    pub paused: bool,
    /// True while the player is a thumbnail on the browse page.
    pub background: bool,
    /// Whether the pointer is over this player.
    pub hovered: bool,
    pub menu_open: bool,
    /// Where along the seek bar its thumb is held, in [`seek_bar::WHOLE`]ths.
    pub scrub: Option<u32>,
}

impl Player {
    pub fn new(volume: u8) -> (r: Player)
        ensures
            r == (Player {
                volume,
                volume_before_mute: if volume > 0 {
                    volume
                } else {
                    1
                },
                volume_before_background: volume,
                paused: false,
                background: false,
                hovered: false,
                menu_open: false,
                scrub: None,
            }),
    {
        Player {
            volume,
            volume_before_mute: if volume > 0 {
                volume
            } else {
                1
            },
            volume_before_background: volume,
            paused: false,
            background: false,
            hovered: false,
            menu_open: false,
            scrub: None,
        }
    }

    /// This player at another volume. Silence is not what a mute goes back to.
    pub open spec fn at_volume(self, volume: u8) -> Player {
        Player {
            volume: if volume <= 100 {
                volume
            } else {
                100
            },
            volume_before_mute: if volume > 0 {
                volume
            } else {
                self.volume_before_mute
            },
            ..self
        }
    }

    /// The level that muting, or unmuting, sets.
    pub open spec fn toggled(self) -> u8 {
        if self.volume == 0 {
            self.volume_before_mute
        } else {
            0
        }
    }

    /// Set the volume. It is worth remembering.
    pub fn apply_volume(&mut self, volume: u8)
        ensures
            *final(self) == old(self).at_volume(volume),
    {
        if volume > 0 {
            self.volume_before_mute = volume;
        }
        self.volume = video::set_volume(volume);
    }

    /// Step the volume, held to its ends. The level that is worth remembering.
    pub fn nudge_volume(&mut self, delta: i16) -> (r: u8)
        ensures
            r == (if old(self).volume + delta < 0 {
                0
            } else if old(self).volume + delta > 100 {
                100
            } else {
                old(self).volume + delta
            }),
            *final(self) == old(self).at_volume(r),
    {
        let next: i32 = self.volume as i32 + delta as i32;
        let next: u8 = if next < 0 {
            0
        } else if next > 100 {
            100
        } else {
            next as u8
        };
        self.apply_volume(next);
        next
    }

    /// Mute, or go back to the level before. The level that is worth
    /// remembering.
    pub fn toggle_mute(&mut self) -> (r: u8)
        ensures
            r == old(self).toggled(),
            *final(self) == old(self).at_volume(r),
    {
        let next: u8 = if self.volume == 0 {
            self.volume_before_mute
        } else {
            0
        };
        self.apply_volume(next);
        next
    }

    /// This player in the background, or back in front. A thumbnail is muted
    /// without that being a level anybody chose, and shows no controls.
    pub open spec fn moved(self, background: bool) -> Player {
        if self.background == background {
            self
        } else if background {
            Player {
                background,
                volume_before_background: self.volume,
                volume: 0,
                menu_open: false,
                hovered: false,
                ..self
            }
        } else {
            Player {
                background,
                volume: if self.volume_before_background <= 100 {
                    self.volume_before_background
                } else {
                    100
                },
                menu_open: false,
                hovered: false,
                ..self
            }
        }
    }

    /// Move the player between the watch page and the browse thumbnail.
    pub fn set_background(&mut self, background: bool)
        ensures
            *final(self) == old(self).moved(background),
    {
        if self.background == background {
            return ;
        }
        self.background = background;
        if background {
            self.volume_before_background = self.volume;
            self.volume = 0;
        } else {
            self.volume = video::set_volume(self.volume_before_background);
        }
        self.menu_open = false;
        self.hovered = false;
    }

    /// Whether the control bar is up. It stays up while the menu is open, even
    /// after the pointer has left, and while the thumb is held.
    pub open spec fn shows_controls(self) -> bool {
        !self.background && (self.hovered || self.menu_open || self.scrub is Some)
    }

    pub fn controls_visible(&self) -> (r: bool)
        ensures
            r == self.shows_controls(),
    {
        !self.background && (self.hovered || self.menu_open || self.scrub.is_some())
    }

    /// Where the pointer is. Whether the control bar came up or went.
    pub fn set_hovered(&mut self, hovered: bool) -> (r: bool)
        ensures
            *final(self) == (Player { hovered, ..*old(self) }),
            r == (old(self).shows_controls() != final(self).shows_controls()),
    {
        let before = self.controls_visible();
        self.hovered = hovered;
        before != self.controls_visible()
    }

    pub fn toggle_playback(&mut self)
        ensures
            *final(self) == (Player { paused: !old(self).paused, ..*old(self) }),
    {
        self.paused = !self.paused;
    }

    pub fn toggle_menu(&mut self)
        ensures
            *final(self) == (Player { menu_open: !old(self).menu_open, ..*old(self) }),
    {
        self.menu_open = !self.menu_open;
    }

    /// The pointer went down on the seek bar, or moved while it was down.
    /// Whether the thumb moved. The seek waits until it lets go.
    pub fn scrub_to(&mut self, fraction: u32) -> (r: bool)
        ensures
            *final(self) == (Player { scrub: Some(fraction), ..*old(self) }),
            r == (old(self).scrub != Some(fraction)),
    {
        let moved = match self.scrub {
            Some(held) => held != fraction,
            None => true,
        };
        self.scrub = Some(fraction);
        moved
    }

    /// The pointer let go, wherever it is: where to seek to, if a thumb was
    /// held on the bar of a recording.
    pub fn end_scrub(&mut self, timeline: &Option<Timeline>, position: u64, since: u64) -> (r:
        Option<u128>)
        ensures
            *final(self) == (Player { scrub: None, ..*old(self) }),
            r is Some <==> old(self).scrub is Some && *timeline is Some,
            r is Some ==> r->0 == seek_bar::time_at(
                old(self).scrub->0 as int,
                (*timeline)->0.reaches(position as int, since as int),
            ),
    {
        let held = self.scrub;
        self.scrub = None;
        match (held, timeline) {
            (Some(fraction), Some(timeline)) => {
                let extent: u128 = timeline.extent(position, since);
                Some(seek_bar::time_of(fraction, extent))
            },
            _ => None,
        }
    }

    /// What the row of buttons says.
    pub fn buttons(&self) -> (r: Buttons)
        ensures
            r.playback@ == (if self.paused {
                "play"@
            } else {
                "pause"@
            }),
            r.sound@ == (if self.volume == 0 {
                "unmute"@
            } else {
                "mute"@
            }),
            r.level@ == text::decimal(self.volume as nat) + "%"@,
    {
        let mut level = String::new();
        text::push_decimal(&mut level, self.volume as u64);
        level.append("%");
        assert(level@ =~= text::decimal(self.volume as nat) + "%"@);
        Buttons {
            playback: if self.paused {
                "play"
            } else {
                "pause"
            },
            sound: if self.volume == 0 {
                "unmute"
            } else {
                "mute"
            },
            level,
        }
    }

    /// The seek bar of a recording. While the thumb is held, the time on the
    /// left follows it rather than the playhead. A live stream has no bar.
    pub fn seek_row(&self, timeline: &Option<Timeline>, position: u64, since: u64) -> (r: Option<
        SeekRow,
    >)
        ensures
            r is Some <==> *timeline is Some,
            r is Some ==> ({
                let row = r->0;
                let extent = (*timeline)->0.reaches(position as int, since as int);
                &&& row.played == seek_bar::played(position as int, extent)
                &&& row.scrub == self.scrub
                &&& row.extent@ == seek_bar::written((extent / 1000) as nat)
                &&& row.position@ == seek_bar::written(
                    ((match self.scrub {
                        Some(fraction) => seek_bar::time_at(fraction as int, extent),
                        None => position as int,
                    }) / 1000) as nat,
                )
            }),
    {
        match timeline {
            Some(timeline) => {
                let extent: u128 = timeline.extent(position, since);
                let shown: u128 = match self.scrub {
                    Some(fraction) => seek_bar::time_of(fraction, extent),
                    None => position as u128,
                };
                Some(
                    SeekRow {
                        played: seek_bar::played_of(position, extent),
                        scrub: self.scrub,
                        position: seek_bar::time_text(shown),
                        extent: seek_bar::time_text(extent),
                    },
                )
            },
            None => None,
        }
    }

    pub fn is_muted(&self) -> (r: bool)
        ensures
            r == (self.volume == 0),
    {
        self.volume == 0
    }
}

/// Which of the qualities on offer is the one that plays.
pub fn quality_rows(available: &Vec<String>, current: &str) -> (r: Vec<bool>)
    ensures
        r@.len() == available@.len(),
        forall|i: int| 0 <= i < r@.len() ==> (#[trigger] r@[i]) == (available@[i]@ == current@),
{
    let mut out: Vec<bool> = Vec::new();
    let mut i: usize = 0;
    while i < available.len()
        invariant
            i <= available@.len(),
            out@.len() == i,
            forall|k: int| 0 <= k < i ==> (#[trigger] out@[k]) == (available@[k]@ == current@),
        decreases available@.len() - i,
    {
        out.push(text::same(available[i].as_str(), current));
        i = i + 1;
    }
    out
}

/// Muting and unmuting again comes back to the level that was set.
pub proof fn law_unmuting_restores_the_level(player: Player, volume: u8)
    requires
        0 < volume <= 100,
    ensures
        ({
            let set = player.at_volume(volume);
            let muted = set.at_volume(set.toggled());
            muted.volume == 0 && muted.at_volume(muted.toggled()).volume == volume
        }),
{
}

/// Going to the browse page and back leaves the level as it was, and what a
/// mute goes back to.
pub proof fn law_browsing_changes_no_level(player: Player)
    requires
        !player.background,
        player.volume <= 100,
    ensures
        player.moved(true).volume == 0,
        player.moved(true).moved(false).volume == player.volume,
        player.moved(true).moved(false).volume_before_mute == player.volume_before_mute,
        !player.moved(true).shows_controls(),
{
}

/// A level is held between silence and the loudest there is, and a player that
/// is set to one has it; silence is not what a mute goes back to.
pub proof fn law_a_level_is_held(player: Player, volume: u8)
    ensures
        player.at_volume(volume).volume <= 100,
        volume <= 100 ==> player.at_volume(volume).volume == volume,
        volume > 100 ==> player.at_volume(volume).volume == 100,
        player.at_volume(0).volume_before_mute == player.volume_before_mute,
        volume > 0 ==> player.at_volume(volume).volume_before_mute == volume,
        player.at_volume(volume).paused == player.paused,
        player.at_volume(volume).scrub == player.scrub,
        player.at_volume(volume).background == player.background,
        player.at_volume(volume).volume_before_background == player.volume_before_background,
        player.volume > 0 ==> player.toggled() == 0,
{
}

/// The controls are up while the pointer is over the player, while its menu is
/// open and while its thumb is held, and never over a thumbnail. A player that
/// comes back to the front has none of the first two left over.
pub proof fn law_controls_are_up_while_they_are_used(player: Player)
    ensures
        player.background ==> !player.shows_controls(),
        !player.background && player.hovered ==> player.shows_controls(),
        !player.background && player.menu_open ==> player.shows_controls(),
        !player.background && player.scrub is Some ==> player.shows_controls(),
        !player.hovered && !player.menu_open && player.scrub is None ==> !player.shows_controls(),
        player.moved(player.background) == player,
        player.background ==> !player.moved(false).hovered && !player.moved(false).menu_open
            && player.moved(false).paused == player.paused && player.moved(false).scrub
            == player.scrub,
{
}

} // verus!
