//! The render thread's decisions: how large to render, what to tell the
//! player, and what its reports mean.

use crate::text;
use vstd::prelude::*;
use vstd::string::*;

verus! {

/// Upper bound on render size. 1440p is the highest Twitch tier, so anything
/// beyond this is scaling up.
pub const MAX_RENDER_WIDTH: u32 = 2560;

pub const MAX_RENDER_HEIGHT: u32 = 1440;

/// Lower bound on render size.
pub const MIN_RENDER_WIDTH: u32 = 160;

pub const MIN_RENDER_HEIGHT: u32 = 90;

/// A size in one number, so that width and height can never be read from
/// different frames.
pub open spec fn packed(width: u32, height: u32) -> u64 {
    (width * 0x1_0000_0000 + height) as u64
}

pub fn pack_size(width: u32, height: u32) -> (r: u64)
    ensures
        r == width * 0x1_0000_0000 + height,
        r == packed(width, height),
{
    width as u64 * 0x1_0000_0000 + height as u64
}

pub fn unpack_size(packed: u64) -> (r: (u32, u32))
    ensures
        r.0 == packed / 0x1_0000_0000,
        r.1 == packed % 0x1_0000_0000,
{
    ((packed / 0x1_0000_0000) as u32, (packed % 0x1_0000_0000) as u32)
}

/// A packed size is the size that was packed.
pub proof fn law_a_packed_size_is_the_size(width: u32, height: u32)
    ensures
        packed(width, height) / 0x1_0000_0000 == width,
        packed(width, height) % 0x1_0000_0000 == height,
{
}

/// A number held between two others.
pub open spec fn between(n: u32, low: u32, high: u32) -> u32 {
    if n < low {
        low
    } else if n > high {
        high
    } else {
        n
    }
}

fn held_between(n: u32, low: u32, high: u32) -> (r: u32)
    ensures
        r == between(n, low, high),
{
    if n < low {
        low
    } else if n > high {
        high
    } else {
        n
    }
}

/// The render size that was last asked for.
#[derive(Debug, Clone, Copy, PartialEq, Eq)]
pub struct SizeHandle {
    pub packed: u64,
}

impl SizeHandle {
    /// Ask for a new render size in physical pixels. Capped so that maximising
    /// onto a large display does not start pushing its whole size through the
    /// CPU for every frame.
    pub fn request(&mut self, width: u32, height: u32)
        ensures
            final(self).packed == packed(
                between(width, MIN_RENDER_WIDTH, MAX_RENDER_WIDTH),
                between(height, MIN_RENDER_HEIGHT, MAX_RENDER_HEIGHT),
            ),
    {
        self.packed =
        pack_size(
            held_between(width, MIN_RENDER_WIDTH, MAX_RENDER_WIDTH),
            held_between(height, MIN_RENDER_HEIGHT, MAX_RENDER_HEIGHT),
        );
    }
}

/// A stream's resolution, once known: neither side of it is nothing.
pub fn source_size(packed: u64) -> (r: Option<(u32, u32)>)
    ensures
        match r {
            Some((w, h)) => w > 0 && h > 0 && w == packed / 0x1_0000_0000 && h == packed
                % 0x1_0000_0000,
            None => packed / 0x1_0000_0000 == 0 || packed % 0x1_0000_0000 == 0,
        },
{
    let (w, h) = unpack_size(packed);
    if w == 0 || h == 0 {
        None
    } else {
        Some((w, h))
    }
}

/// Whether to ask for decoding on the GPU, by what the environment says: yes,
/// unless it says otherwise.
pub fn hwdec_requested(value: &Option<String>) -> (r: bool)
    ensures
        r == !(match value {
            Some(word) => word@ == "0"@ || word@ == "off"@ || word@ == "no"@,
            None => false,
        }),
{
    match value {
        Some(word) => !(text::same(word.as_str(), "0") || text::same(word.as_str(), "off")
            || text::same(word.as_str(), "no")),
        None => true,
    }
}

/// The level a player is set to: no louder than there is.
pub fn set_volume(percent: u8) -> (r: u8)
    ensures
        r == (if percent <= 100 {
            percent
        } else {
            100
        }),
{
    if percent <= 100 {
        percent
    } else {
        100
    }
}

// ── The render loop ──────────────────────────────────────────────────

/// What the render loop knows about its player.
#[derive(Debug, Clone, Copy, PartialEq, Eq)]
pub struct RenderState {
    /// What the player last said of its source.
    pub source_width: Option<u32>,
    pub source_height: Option<u32>,
    /// The source's resolution, once both sides of it have been said.
    pub source: Option<(u32, u32)>,
    /// The size that is rendered at.
    pub size: (u32, u32),
    pub applied_volume: u8,
    pub applied_pause: bool,
    /// The player's count of dropped frames when it was last reported.
    pub last_drops: u64,
}

/// What a report of the player is worth.
#[derive(Debug, Clone, PartialEq, Eq)]
pub enum Report {
    Nothing,
    /// Decoding happens like this.
    Hwdec(String),
    /// So many more frames were dropped.
    Dropped(u64),
}

/// A number that a player's property says.
pub open spec fn said_number(value: Option<String>, max: nat) -> Option<nat> {
    match value {
        Some(word) => text::unsigned(word@, max),
        None => None,
    }
}

fn number_said(value: &Option<String>, max: u64) -> (r: Option<u64>)
    ensures
        match r {
            Some(n) => said_number(*value, max as nat) == Some(n as nat),
            None => said_number(*value, max as nat) is None,
        },
        r matches Some(n) ==> n <= max,
{
    match value {
        Some(word) => {
            let chars = text::chars_of(word.as_str());
            text::unsigned_of(chars.as_slice(), max)
        },
        None => None,
    }
}

/// A side of the source as the player says it, where it says a number.
pub open spec fn side(value: Option<String>) -> Option<u32> {
    match said_number(value, u32::MAX as nat) {
        Some(n) => Some(n as u32),
        None => None,
    }
}

/// How far a count has grown: a count that starts over has not.
pub open spec fn grown(before: u64, now: u64) -> u64 {
    if now > before {
        (now - before) as u64
    } else {
        0
    }
}

/// What to tell the player before the next frame, and how large to render it.
#[derive(Debug, Clone, Copy, PartialEq, Eq)]
pub struct RenderTurn {
    /// The source's resolution, where it has just become known.
    pub learned: Option<(u32, u32)>,
    pub size: (u32, u32),
    /// Pause, or go on.
    pub pause: Option<bool>,
    /// Go to the live edge first: going on from where a stream stopped would
    /// leave the viewer behind for good.
    pub to_live: bool,
    pub volume: Option<u8>,
}

impl RenderState {
    pub fn new(width: u32, height: u32, volume: u8) -> (r: RenderState)
        ensures
            r == (RenderState {
                source_width: None,
                source_height: None,
                source: None,
                size: (width, height),
                applied_volume: volume,
                applied_pause: false,
                last_drops: 0,
            }),
    {
        RenderState {
            source_width: None,
            source_height: None,
            source: None,
            size: (width, height),
            applied_volume: volume,
            applied_pause: false,
            last_drops: 0,
        }
    }

    /// A property of the player changed. Its count of dropped frames is worth
    /// how far it has grown: every player counts from zero, and starts over when
    /// it is restarted.
    pub fn on_property(&mut self, name: &str, value: &Option<String>) -> (r: Report)
        ensures
            if name@ == "width"@ {
                &&& *final(self) == (RenderState { source_width: side(*value), ..*old(self) })
                &&& r is Nothing
            } else if name@ == "height"@ {
                &&& *final(self) == (RenderState { source_height: side(*value), ..*old(self) })
                &&& r is Nothing
            } else if name@ == "hwdec-current"@ {
                &&& *final(self) == *old(self)
                &&& match value {
                    Some(actual) => r == Report::Hwdec(*actual),
                    None => r is Nothing,
                }
            } else if name@ == "decoder-frame-drop-count"@ {
                match said_number(*value, u64::MAX as nat) {
                    Some(total) => {
                        &&& *final(self) == (RenderState { last_drops: total as u64, ..*old(self) })
                        &&& r == Report::Dropped(grown(old(self).last_drops, total as u64))
                    },
                    None => *final(self) == *old(self) && r is Nothing,
                }
            } else {
                *final(self) == *old(self) && r is Nothing
            },
    {
        proof {
            reveal_strlit("width");
            reveal_strlit("height");
            reveal_strlit("hwdec-current");
            reveal_strlit("decoder-frame-drop-count");
            assert("width"@.len() != "height"@.len());
        }
        if text::same(name, "width") {
            self.source_width =
            match number_said(value, 0xFFFF_FFFF) {
                Some(n) => Some(n as u32),
                None => None,
            };
            Report::Nothing
        } else if text::same(name, "height") {
            self.source_height =
            match number_said(value, 0xFFFF_FFFF) {
                Some(n) => Some(n as u32),
                None => None,
            };
            Report::Nothing
        } else if text::same(name, "hwdec-current") {
            match value {
                Some(actual) => Report::Hwdec(actual.clone()),
                None => Report::Nothing,
            }
        } else if text::same(name, "decoder-frame-drop-count") {
            match number_said(value, 0xFFFF_FFFF_FFFF_FFFF) {
                Some(total) => {
                    let more: u64 = if total > self.last_drops {
                        total - self.last_drops
                    } else {
                        0
                    };
                    self.last_drops = total;
                    Report::Dropped(more)
                },
                None => Report::Nothing,
            }
        } else {
            Report::Nothing
        }
    }

    /// The source's resolution: what was known, or what both sides say now,
    /// where neither is nothing.
    pub open spec fn known_source(self) -> Option<(u32, u32)> {
        match self.source {
            Some(size) => Some(size),
            None => match (self.source_width, self.source_height) {
                (Some(w), Some(h)) => if w > 0 && h > 0 {
                    Some((w, h))
                } else {
                    None
                },
                _ => None,
            },
        }
    }

    /// The size to render at: what the pane asks for, but never more than the
    /// source has, since scaling up is what costs most. A size with nothing on
    /// a side is not taken.
    pub open spec fn fits(self, target: (u32, u32)) -> (u32, u32) {
        let wanted = match self.known_source() {
            Some((w, h)) => (
                if target.0 < w {
                    target.0
                } else {
                    w
                },
                if target.1 < h {
                    target.1
                } else {
                    h
                },
            ),
            None => target,
        };
        if wanted.0 > 0 && wanted.1 > 0 {
            wanted
        } else {
            self.size
        }
    }

    /// What to do between two frames.
    pub fn turn(&mut self, target: u64, want_pause: bool, want_volume: u8) -> (r: RenderTurn)
        ensures
            ({
                let asked = (
                    (target / 0x1_0000_0000) as u32,
                    (target % 0x1_0000_0000) as u32,
                );
                &&& r.learned == (if old(self).source is None {
                    old(self).known_source()
                } else {
                    None
                })
                &&& r.size == old(self).fits(asked)
                &&& r.pause == (if want_pause != old(self).applied_pause {
                    Some(want_pause)
                } else {
                    None
                })
                &&& r.to_live == (old(self).applied_pause && !want_pause)
                &&& r.volume == (if want_volume != old(self).applied_volume {
                    Some(want_volume)
                } else {
                    None
                })
                &&& *final(self) == (RenderState {
                    source: old(self).known_source(),
                    size: r.size,
                    applied_pause: want_pause,
                    applied_volume: want_volume,
                    ..*old(self)
                })
            }),
    {
        let mut learned: Option<(u32, u32)> = None;
        if self.source.is_none() {
            match (self.source_width, self.source_height) {
                (Some(w), Some(h)) => {
                    if w > 0 && h > 0 {
                        self.source = Some((w, h));
                        learned = Some((w, h));
                    }
                },
                _ => {},
            }
        }
        let (mut want_w, mut want_h): (u32, u32) = unpack_size(target);
        match self.source {
            Some((w, h)) => {
                if want_w > w {
                    want_w = w;
                }
                if want_h > h {
                    want_h = h;
                }
            },
            None => {},
        }
        if want_w > 0 && want_h > 0 {
            self.size = (want_w, want_h);
        }
        let pause = if want_pause != self.applied_pause {
            Some(want_pause)
        } else {
            None
        };
        let to_live = self.applied_pause && !want_pause;
        self.applied_pause = want_pause;
        let volume = if want_volume != self.applied_volume {
            Some(want_volume)
        } else {
            None
        };
        self.applied_volume = want_volume;
        RenderTurn { learned, size: self.size, pause, to_live, volume }
    }
}

/// Nothing is ever rendered larger than its source, once that is known.
pub proof fn law_nothing_is_scaled_up(state: RenderState, target: (u32, u32), w: u32, h: u32)
    requires
        state.known_source() == Some((w, h)),
        target.0 > 0 && target.1 > 0,
        w > 0 && h > 0,
    ensures
        state.fits(target).0 <= w,
        state.fits(target).1 <= h,
        state.fits(target).0 <= target.0,
        state.fits(target).1 <= target.1,
{
}

/// A size that is asked for is held between the least and the most that is
/// rendered, and taken as it is in between.
pub proof fn law_a_size_is_held(n: u32, low: u32, high: u32)
    requires
        low <= high,
    ensures
        low <= between(n, low, high) <= high,
        low <= n <= high ==> between(n, low, high) == n,
        n < low ==> between(n, low, high) == low,
        n > high ==> between(n, low, high) == high,
{
}

/// A pane gets the size it asks for as long as its source has that much, on
/// each side by itself; nothing is rendered at no size; and a source that is
/// known stays known.
pub proof fn law_a_pane_gets_the_size_it_asks_for(state: RenderState, target: (u32, u32))
    ensures
        state.known_source() is None && target.0 > 0 && target.1 > 0 ==> state.fits(target)
            == target,
        target.0 > 0 && target.1 > 0 ==> (state.known_source() matches Some((w, h)) ==> ((w > 0
            && h > 0) ==> (target.0 <= w ==> state.fits(target).0 == target.0) && (target.1 <= h
            ==> state.fits(target).1 == target.1) && (target.0 > w ==> state.fits(target).0 == w)
            && (target.1 > h ==> state.fits(target).1 == h))),
        target.0 == 0 || target.1 == 0 ==> state.fits(target) == state.size,
        state.source is Some ==> state.known_source() == state.source,
        state.source is None && state.source_width is Some && state.source_height is Some
            && state.source_width->0 > 0 && state.source_height->0 > 0 ==> state.known_source()
            == Some((state.source_width->0, state.source_height->0)),
        state.source is None && (state.source_width is None || state.source_height is None
            || state.source_width->0 == 0 || state.source_height->0 == 0)
            ==> state.known_source() is None,
        state.source is None && (state.source_width is None || state.source_height is None)
            ==> state.known_source() is None,
{
}

/// Frames that were dropped are counted once, and a count that starts over
/// counts from there.
pub proof fn law_drops_are_counted_once(before: u64, now: u64)
    ensures
        now >= before ==> before + grown(before, now) == now,
        now < before ==> grown(before, now) == 0,
{
}

/// A number that the player writes is the number that is read.
pub proof fn law_a_side_is_read_as_written(n: u32, value: String)
    requires
        value@ == text::decimal(n as nat),
    ensures
        side(Some(value)) == Some(n),
        side(None) is None,
{
    crate::rewritten::lemma_decimal(n as nat);
    assert(text::is_digit(value@[0]));
}

} // verus!
