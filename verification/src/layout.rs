//! Choosing how to arrange several players in a window.
//!
//! Every column count is tried, and the one whose cells come closest to the
//! shape a video pane wants is taken. Lengths are whole numbers of
//! [`PIXEL`]ths of a pixel, and shapes are ratios of them, so that nothing here
//! rests on how a division rounds.

use vstd::arithmetic::div_mod::*;
use vstd::prelude::*;

verus! {

/// What one pixel is counted as.
pub const PIXEL: u32 = 64;

/// What a whole cell is counted as, where a share of it is meant.
pub const WHOLE: u32 = 1_000_000;

/// Between two panes, in pixels.
pub const PANE_GAP: u32 = 3;

/// What a chat's width is held to, in pixels.
pub const CHAT_WIDTH_MIN: u32 = 260;

pub const CHAT_WIDTH_MAX: u32 = 640;

/// The least, and the most, pixels a stream is asked for.
pub const PANE_HEIGHT_MIN: u32 = 180;

pub const PANE_HEIGHT_MAX: u32 = crate::video::MAX_RENDER_HEIGHT;

/// A shape: so much width to so much height.
#[derive(Debug, Clone, Copy, PartialEq, Eq)]
pub struct Shape {
    pub wide: u32,
    pub high: u32,
}

/// The same of a cell, which multiplies a window's shape by its grid's.
#[derive(Debug, Clone, Copy, PartialEq, Eq)]
pub struct CellShape {
    pub wide: u64,
    pub high: u64,
}

impl Shape {
    /// The shape that is used: 16:9 in place of one without an extent.
    pub open spec fn usable(self) -> Shape {
        if self.wide > 0 && self.high > 0 {
            self
        } else {
            video_shape()
        }
    }

    fn made_usable(self) -> (r: Shape)
        ensures
            r == self.usable(),
    {
        if self.wide > 0 && self.high > 0 {
            self
        } else {
            Shape { wide: 16, high: 9 }
        }
    }
}

/// The shape a video box is given before its stream has said what shape it is.
pub open spec fn video_shape() -> Shape {
    Shape { wide: 16, high: 9 }
}

/// The room a page has, which is not the window's once the rail is open.
#[derive(Debug, Clone, Copy, PartialEq, Eq)]
pub struct Body {
    pub width: u32,
    pub height: u32,
}

impl Body {
    /// The viewport less the rail's width, which is zero when the rail is
    /// folded.
    pub fn of(width: u32, height: u32, rail_width: u32) -> (r: Body)
        ensures
            r.width == (if width >= rail_width {
                width - rail_width
            } else {
                0
            }),
            r.height == height,
    {
        Body {
            width: if width >= rail_width {
                width - rail_width
            } else {
                0
            },
            height,
        }
    }

    /// Width to height, taking a window to be at least a pixel high.
    pub fn aspect(&self) -> (r: Shape)
        ensures
            r.wide == self.width,
            r.high == (if self.height >= PIXEL {
                self.height
            } else {
                PIXEL
            }),
    {
        Shape {
            wide: self.width,
            high: if self.height >= PIXEL {
                self.height
            } else {
                PIXEL
            },
        }
    }
}

/// How far a shape of `wide` to `high` is from one of `x` to `y`: the factor by
/// which it is too wide, or too narrow, as a fraction. Being twice too wide and
/// half too wide are as bad as each other.
pub open spec fn distance(wide: int, high: int, x: int, y: int) -> (int, int) {
    if wide * y >= high * x {
        (wide * y, high * x)
    } else {
        (high * x, wide * y)
    }
}

/// Whether one fraction is less than another.
pub open spec fn less(a: (int, int), b: (int, int)) -> bool {
    a.0 * b.1 < b.0 * a.1
}

/// How badly a cell of this shape fits a video and its chat. With chat beside
/// the video a cell wants to be 20:9, a quarter wider than the video; with chat
/// underneath, 32:27. It is measured against whichever is closer.
pub open spec fn penalty(wide: int, high: int) -> (int, int) {
    let beside = distance(wide, high, 20, 9);
    let below = distance(wide, high, 32, 27);
    if less(below, beside) {
        below
    } else {
        beside
    }
}

/// How many rows `count` panes take in `cols` columns.
pub open spec fn rows_for(count: int, cols: int) -> int {
    (count + cols - 1) / cols
}

/// Whether `count` panes in `cols` columns leave too few cells empty to drop a
/// whole row or a whole column.
pub open spec fn fits(count: int, cols: int) -> bool {
    &&& 1 <= cols <= count
    &&& rows_for(count, cols) * cols < count + rows_for(count, cols)
    &&& rows_for(count, cols) * cols < count + cols
}

/// How badly the cells fit, of `count` panes in `cols` columns of a window of
/// `shape`.
pub open spec fn grid_penalty(count: int, shape: Shape, cols: int) -> (int, int) {
    penalty(shape.wide * rows_for(count, cols), shape.high * cols)
}

/// Whether `cols` columns are the ones to take: they fit, none that fit have
/// better cells, and of those as good they are the fewest.
pub open spec fn is_best(count: int, shape: Shape, cols: int) -> bool {
    &&& fits(count, cols)
    &&& forall|c: int| #[trigger]
        fits(count, c) ==> !less(grid_penalty(count, shape, c), grid_penalty(count, shape, cols))
    &&& forall|c: int|
        c < cols && #[trigger] fits(count, c) ==> less(
            grid_penalty(count, shape, cols),
            grid_penalty(count, shape, c),
        )
}

pub open spec fn at_least_one(count: int) -> int {
    if count > 0 {
        count
    } else {
        1
    }
}

proof fn lemma_rows(count: int, cols: int)
    requires
        1 <= cols <= count,
    ensures
        1 <= rows_for(count, cols) <= count,
        count <= rows_for(count, cols) * cols < count + cols,
{
    let n = count + cols - 1;
    lemma_fundamental_div_mod(n, cols);
    lemma_mod_bound(n, cols);
    let rows = rows_for(count, cols);
    assert(rows * cols == cols * rows) by (nonlinear_arith);
    assert(rows >= 1) by (nonlinear_arith)
        requires
            rows * cols > 0,
            cols >= 1,
    ;
    assert(rows <= count) by (nonlinear_arith)
        requires
            rows * cols <= count + cols - 1,
            1 <= cols <= count,
    ;
}

/// A fraction that is less than one that is not more than a third is less than
/// the third.
proof fn lemma_less_on(a: (int, int), b: (int, int), c: (int, int))
    requires
        a.1 > 0,
        b.1 > 0,
        c.1 > 0,
        less(a, b),
        !less(c, b),
    ensures
        less(a, c),
{
    assert(a.0 * c.1 < c.0 * a.1) by (nonlinear_arith)
        requires
            a.1 > 0,
            b.1 > 0,
            c.1 > 0,
            a.0 * b.1 < b.0 * a.1,
            b.0 * c.1 <= c.0 * b.1,
    {
        assert((a.0 * c.1) * b.1 < (c.0 * a.1) * b.1) by (nonlinear_arith)
            requires
                a.1 > 0,
                b.1 > 0,
                c.1 > 0,
                a.0 * b.1 < b.0 * a.1,
                b.0 * c.1 <= c.0 * b.1,
        {
            assert((a.0 * b.1) * c.1 < (b.0 * a.1) * c.1);
            assert((b.0 * c.1) * a.1 <= (c.0 * b.1) * a.1);
        }
    }
}

/// Whether the terms of a fraction are small enough to multiply.
spec fn bounded(f: (int, int)) -> bool {
    0 < f.0 < 0x20_0000_0000_0000 && 0 < f.1 < 0x20_0000_0000_0000
}

fn distance_of(wide: u64, high: u64, x: u64, y: u64) -> (r: (u128, u128))
    requires
        0 < wide < 0x1_0000_0000_0000,
        0 < high < 0x1_0000_0000_0000,
        0 < x <= 32,
        0 < y <= 32,
    ensures
        (r.0 as int, r.1 as int) == distance(wide as int, high as int, x as int, y as int),
        bounded((r.0 as int, r.1 as int)),
{
    assert(0 < wide * y < 0x20_0000_0000_0000) by (nonlinear_arith)
        requires
            0 < wide < 0x1_0000_0000_0000,
            0 < y <= 32,
    ;
    assert(0 < high * x < 0x20_0000_0000_0000) by (nonlinear_arith)
        requires
            0 < high < 0x1_0000_0000_0000,
            0 < x <= 32,
    ;
    let a: u128 = wide as u128 * y as u128;
    let b: u128 = high as u128 * x as u128;
    if a >= b {
        (a, b)
    } else {
        (b, a)
    }
}

fn is_less(a: (u128, u128), b: (u128, u128)) -> (r: bool)
    requires
        bounded((a.0 as int, a.1 as int)),
        bounded((b.0 as int, b.1 as int)),
    ensures
        r == less((a.0 as int, a.1 as int), (b.0 as int, b.1 as int)),
{
    assert(a.0 * b.1 < 0x1000_0000_0000_0000_0000_0000_0000) by (nonlinear_arith)
        requires
            0 < a.0 < 0x20_0000_0000_0000,
            0 < b.1 < 0x20_0000_0000_0000,
    ;
    assert(b.0 * a.1 < 0x1000_0000_0000_0000_0000_0000_0000) by (nonlinear_arith)
        requires
            0 < b.0 < 0x20_0000_0000_0000,
            0 < a.1 < 0x20_0000_0000_0000,
    ;
    assert(a.0 * b.1 >= 0 && b.0 * a.1 >= 0) by (nonlinear_arith);
    a.0 * b.1 < b.0 * a.1
}

/// How badly a cell of this shape fits.
fn cell_penalty(wide: u64, high: u64) -> (r: (u128, u128))
    requires
        0 < wide < 0x1_0000_0000_0000,
        0 < high < 0x1_0000_0000_0000,
    ensures
        (r.0 as int, r.1 as int) == penalty(wide as int, high as int),
        bounded((r.0 as int, r.1 as int)),
{
    let beside = distance_of(wide, high, 20, 9);
    let below = distance_of(wide, high, 32, 27);
    if is_less(below, beside) {
        below
    } else {
        beside
    }
}

/// The shape of one cell in the given grid.
pub fn cell_aspect(window: Shape, rows: u16, cols: u16) -> (r: CellShape)
    ensures
        r.wide == window.wide * at_least_one(rows as int),
        r.high == window.high * at_least_one(cols as int),
{
    let rows: u64 = if rows > 0 {
        rows as u64
    } else {
        1
    };
    let cols: u64 = if cols > 0 {
        cols as u64
    } else {
        1
    };
    assert(window.wide * rows <= 0xffff_ffff * 0xffff) by (nonlinear_arith)
        requires
            window.wide <= 0xffff_ffff,
            rows <= 0xffff,
    ;
    assert(window.high * cols <= 0xffff_ffff * 0xffff) by (nonlinear_arith)
        requires
            window.high <= 0xffff_ffff,
            cols <= 0xffff,
    ;
    CellShape { wide: window.wide as u64 * rows, high: window.high as u64 * cols }
}

/// Rows and columns for `count` panes in a window of this shape.
pub fn grid_shape(count: u16, aspect: Shape) -> (r: (u16, u16))
    ensures
        is_best(at_least_one(count as int), aspect.usable(), r.1 as int),
        r.0 == rows_for(at_least_one(count as int), r.1 as int),
{
    let shape = aspect.made_usable();
    let count: u16 = if count > 0 {
        count
    } else {
        1
    };
    let ghost n: int = count as int;
    let mut best: u16 = 1;
    let mut best_rows: u16 = count;
    proof {
        assert(rows_for(n, 1) == n);
        assert(n * 1 == n);
        assert(0 < shape.wide * n < 0x1_0000_0000_0000) by (nonlinear_arith)
            requires
                0 < shape.wide <= 0xffff_ffff,
                0 < n <= 0xffff,
        ;
        assert(shape.high * 1 == shape.high);
    }
    let first = cell_aspect(shape, count, 1);
    let mut best_penalty = cell_penalty(first.wide, first.high);
    let mut cols: u16 = 1;
    while cols < count
        invariant
            1 <= cols <= count,
            n == count,
            shape.wide > 0,
            shape.high > 0,
            1 <= best <= cols,
            fits(n, best as int),
            best_rows == rows_for(n, best as int),
            (best_penalty.0 as int, best_penalty.1 as int) == grid_penalty(n, shape, best as int),
            bounded((best_penalty.0 as int, best_penalty.1 as int)),
            forall|c: int|
                1 <= c <= cols && #[trigger] fits(n, c) ==> !less(
                    grid_penalty(n, shape, c),
                    grid_penalty(n, shape, best as int),
                ) && grid_penalty(n, shape, c).1 > 0,
            forall|c: int|
                c < best && #[trigger] fits(n, c) ==> less(
                    grid_penalty(n, shape, best as int),
                    grid_penalty(n, shape, c),
                ),
        decreases count - cols,
    {
        cols = cols + 1;
        let ghost before: int = best as int;
        proof {
            lemma_rows(n, cols as int);
        }
        let rows: u32 = (count as u32 + cols as u32 - 1) / cols as u32;
        assert(rows == rows_for(n, cols as int));
        assert(rows * cols <= 0xffff * 0xffff) by (nonlinear_arith)
            requires
                rows <= 0xffff,
                cols <= 0xffff,
        ;
        let cells: u32 = rows * cols as u32;
        if cells >= count as u32 + rows || cells >= count as u32 + cols as u32 {
            assert(!fits(n, cols as int));
            continue ;
        }
        assert(fits(n, cols as int));
        let cell = cell_aspect(shape, rows as u16, cols);
        assert(0 < shape.wide * rows < 0x1_0000_0000_0000) by (nonlinear_arith)
            requires
                0 < shape.wide <= 0xffff_ffff,
                0 < rows <= 0xffff,
        ;
        assert(0 < shape.high * cols < 0x1_0000_0000_0000) by (nonlinear_arith)
            requires
                0 < shape.high <= 0xffff_ffff,
                0 < cols <= 0xffff,
        ;
        let found = cell_penalty(cell.wide, cell.high);
        assert((found.0 as int, found.1 as int) == grid_penalty(n, shape, cols as int));
        if is_less(found, best_penalty) {
            proof {
                let f = grid_penalty(n, shape, cols as int);
                let b = grid_penalty(n, shape, before);
                assert forall|c: int| 1 <= c < cols && #[trigger] fits(n, c) implies less(
                    f,
                    grid_penalty(n, shape, c),
                ) && !less(grid_penalty(n, shape, c), f) by {
                    lemma_less_on(f, b, grid_penalty(n, shape, c));
                }
            }
            best_penalty = found;
            best = cols;
            best_rows = rows as u16;
        }
    }
    (best_rows, best)
}

/// The panes all have a cell, and no row and no column of the grid is wholly
/// empty.
pub proof fn law_no_row_or_column_is_empty(count: int, cols: int)
    requires
        fits(count, cols),
    ensures
        rows_for(count, cols) * cols >= count,
        (rows_for(count, cols) - 1) * cols < count,
        rows_for(count, cols) * (cols - 1) < count,
{
    lemma_rows(count, cols);
    let rows = rows_for(count, cols);
    assert((rows - 1) * cols == rows * cols - cols) by (nonlinear_arith);
    assert(rows * (cols - 1) == rows * cols - rows) by (nonlinear_arith);
}

/// No cell fits better than one of a wanted shape.
pub proof fn law_a_wanted_shape_is_best(wide: int, high: int, other_wide: int, other_high: int)
    requires
        wide > 0,
        high > 0,
        other_wide > 0,
        other_high > 0,
        wide * 9 == high * 20 || wide * 27 == high * 32,
    ensures
        !less(penalty(other_wide, other_high), penalty(wide, high)),
{
    let p = penalty(wide, high);
    let q = penalty(other_wide, other_high);
    let beside = distance(wide, high, 20, 9);
    let below = distance(wide, high, 32, 27);
    assert(q.0 >= q.1 > 0);
    if wide * 9 == high * 20 {
        assert(beside.0 == beside.1);
        assert(below.0 >= below.1 > 0);
        assert(!less(below, beside)) by (nonlinear_arith)
            requires
                beside.0 == beside.1,
                beside.0 > 0,
                below.0 >= below.1,
        ;
    } else {
        assert(below.0 == below.1);
        assert(beside.0 > beside.1);
        assert(less(below, beside)) by (nonlinear_arith)
            requires
                below.0 == below.1,
                below.0 > 0,
                beside.0 > beside.1,
        ;
    }
    assert(p.0 == p.1 && p.0 > 0);
    assert(q.0 * p.1 >= p.0 * q.1) by (nonlinear_arith)
        requires
            p.0 == p.1,
            p.0 > 0,
            q.0 >= q.1,
    ;
}

/// Whether a cell of this shape should stack chat under the video rather than
/// beside it: it is narrower than 11:10.
pub open spec fn stacks(cell: CellShape) -> bool {
    cell.wide * 10 < cell.high * 11
}

pub fn cell_is_portrait(cell: CellShape) -> (r: bool)
    ensures
        r == stacks(cell),
{
    (cell.wide as u128) * 10 < (cell.high as u128) * 11
}

/// One cell's extent along an axis of `total` split `count` ways, with the
/// seams between panes taken out first.
pub open spec fn extent_of(total: int, count: int) -> int {
    let seams = PANE_GAP * PIXEL * (at_least_one(count) - 1);
    if total >= seams {
        (total - seams) / at_least_one(count)
    } else {
        0
    }
}

pub fn cell_extent(total: u32, count: u16) -> (r: u32)
    ensures
        r == extent_of(total as int, count as int),
{
    let count: u32 = if count > 0 {
        count as u32
    } else {
        1
    };
    let seams: u32 = PANE_GAP * PIXEL * (count - 1);
    if total >= seams {
        (total - seams) / count
    } else {
        0
    }
}

/// What a dragged share of a cell is held to.
#[derive(Debug, Clone, Copy, PartialEq, Eq)]
pub struct Shares {
    pub least: u32,
    pub most: u32,
}

pub open spec fn at_least(value: int, least: int) -> int {
    if value < least {
        least
    } else {
        value
    }
}

pub open spec fn held(value: int, least: int, most: int) -> int {
    if value < least {
        least
    } else if value > most {
        most
    } else {
        value
    }
}

/// How high the video box is in a stacked cell, for a stream of `shape`, leaving
/// chat the rest. A dragged share wins; without one the box is the shape of the
/// stream, as far as chat keeps its room.
pub open spec fn box_height(cell_width: int, cell_height: int, shape: Shape, share: int, shares: Shares)
    -> int {
    if share > 0 {
        cell_height * held(share, shares.least as int, shares.most as int) / WHOLE as int
    } else {
        let box_ = cell_width * shape.usable().high / shape.usable().wide as int;
        let cap = cell_height * shares.most / WHOLE as int;
        if box_ < cap {
            box_
        } else {
            cap
        }
    }
}

pub fn stacked_video_height(
    cell_width: u32,
    cell_height: u32,
    shape: Shape,
    share: u32,
    shares: Shares,
) -> (r: u64)
    requires
        shares.least <= shares.most,
    ensures
        r == box_height(cell_width as int, cell_height as int, shape, share as int, shares),
{
    if share > 0 {
        let share: u32 = if share < shares.least {
            shares.least
        } else if share > shares.most {
            shares.most
        } else {
            share
        };
        assert(cell_height * share <= 0xffff_ffff * 0xffff_ffff) by (nonlinear_arith)
            requires
                cell_height <= 0xffff_ffff,
                share <= 0xffff_ffff,
        ;
        return cell_height as u64 * share as u64 / WHOLE as u64;
    }
    let shape = shape.made_usable();
    assert(cell_width * shape.high <= 0xffff_ffff * 0xffff_ffff) by (nonlinear_arith)
        requires
            cell_width <= 0xffff_ffff,
            shape.high <= 0xffff_ffff,
    ;
    assert(cell_height * shares.most <= 0xffff_ffff * 0xffff_ffff) by (nonlinear_arith)
        requires
            cell_height <= 0xffff_ffff,
            shares.most <= 0xffff_ffff,
    ;
    let box_: u64 = cell_width as u64 * shape.high as u64 / shape.wide as u64;
    let cap: u64 = cell_height as u64 * shares.most as u64 / WHOLE as u64;
    if box_ < cap {
        box_
    } else {
        cap
    }
}

/// A stacked 16:9 video always leaves chat more than a quarter of its cell.
pub proof fn law_a_stacked_video_leaves_room_for_chat(width: u32, height: u32, shares: Shares)
    requires
        stacks(CellShape { wide: width as u64, high: height as u64 }),
    ensures
        4 * (height - box_height(width as int, height as int, video_shape(), 0, shares)) > height,
{
    let box_ = box_height(width as int, height as int, video_shape(), 0, shares);
    assert(box_ <= width * 9 / 16);
}

/// However a share was dragged, the box is within what it is held to.
pub proof fn law_a_dragged_share_is_held(
    width: int,
    height: int,
    shape: Shape,
    share: int,
    shares: Shares,
)
    requires
        shares.least <= shares.most,
        share > 0,
        height >= 0,
    ensures
        height * shares.least / WHOLE as int <= box_height(width, height, shape, share, shares)
            <= height * shares.most / WHOLE as int,
{
    let taken = held(share, shares.least as int, shares.most as int);
    assert(height * shares.least <= height * taken <= height * shares.most) by (nonlinear_arith)
        requires
            height >= 0,
            shares.least <= taken <= shares.most,
    ;
    lemma_div_is_ordered(height * shares.least, height * taken, WHOLE as int);
    lemma_div_is_ordered(height * taken, height * shares.most, WHOLE as int);
}

// ── The window ───────────────────────────────────────────────────────

/// The window that the application opens with when it has never been closed,
/// in pixels, before it is fitted to the display.
pub const DEFAULT_WIDTH: u32 = 1600;

pub const DEFAULT_HEIGHT: u32 = 920;

/// Where a window was when it closed.
#[derive(Debug, Clone, Copy, PartialEq, Eq)]
pub struct Placement {
    pub x: i32,
    pub y: i32,
    pub width: u32,
    pub height: u32,
    pub maximized: bool,
}

/// How the window opens.
#[derive(Debug, Clone, Copy, PartialEq, Eq)]
pub enum WindowOpening {
    /// Where it was last closed.
    Restored(Placement),
    /// In the middle of the display, at this size.
    Centred { width: u32, height: u32 },
}

/// The part of a display that the default window may take: not all of it, or it
/// reads as a maximised window that has lost its frame.
pub open spec fn fitted(default: int, room: int) -> int {
    if default <= room * 9 / 10 {
        default
    } else {
        room * 9 / 10
    }
}

fn fit(default: u32, room: u32) -> (r: u32)
    ensures
        r == fitted(default as int, room as int),
{
    let most: u64 = room as u64 * 9 / 10;
    if default as u64 <= most {
        default
    } else {
        most as u32
    }
}

/// Where to open the window: where it was last closed, if some display still
/// holds any of that, or else in the middle at a size that fits. `room` is the
/// primary display's, where there is one.
pub fn initial_window_bounds(saved: Option<Placement>, visible: bool, room: Option<(u32, u32)>) -> (r:
    WindowOpening)
    ensures
        r == (if saved is Some && visible {
            WindowOpening::Restored(saved->0)
        } else {
            let width = (DEFAULT_WIDTH * PIXEL) as u32;
            let height = (DEFAULT_HEIGHT * PIXEL) as u32;
            match room {
                Some((wide, high)) => WindowOpening::Centred {
                    width: fitted(width as int, wide as int) as u32,
                    height: fitted(height as int, high as int) as u32,
                },
                None => WindowOpening::Centred { width, height },
            }
        }),
{
    if let Some(placement) = saved {
        if visible {
            return WindowOpening::Restored(placement);
        }
    }
    let width: u32 = DEFAULT_WIDTH * PIXEL;
    let height: u32 = DEFAULT_HEIGHT * PIXEL;
    match room {
        Some((wide, high)) => WindowOpening::Centred {
            width: fit(width, wide),
            height: fit(height, high),
        },
        None => WindowOpening::Centred { width, height },
    }
}

/// The window that opens fits the display it opens on.
pub proof fn law_a_new_window_fits_its_display(default: int, room: int)
    requires
        default >= 0,
        room >= 0,
    ensures
        0 <= fitted(default, room) <= room,
        fitted(default, room) <= default,
{
}

/// How many pixels high a pane is, which is what a quality is chosen against:
/// its share of the body, rounded, and held to what is worth asking for.
/// `height` is the body's in [`PIXEL`]ths of a screen pixel.
pub open spec fn pane_pixels(height: int, rows: int) -> int {
    held(
        (2 * height + PIXEL * rows) / (2 * (PIXEL * rows)),
        PANE_HEIGHT_MIN as int,
        PANE_HEIGHT_MAX as int,
    )
}

pub fn pane_height(height: u32, rows: u16) -> (r: u32)
    requires
        rows > 0,
    ensures
        r == pane_pixels(height as int, rows as int),
{
    let part: u64 = PIXEL as u64 * rows as u64;
    assert(part == 64 * rows);
    let pixels: u64 = (2 * height as u64 + part) / (2 * part);
    if pixels < PANE_HEIGHT_MIN as u64 {
        PANE_HEIGHT_MIN
    } else if pixels > PANE_HEIGHT_MAX as u64 {
        PANE_HEIGHT_MAX
    } else {
        pixels as u32
    }
}

/// How wide chat is beside a video: what was asked for, as far as it leaves the
/// video room.
pub open spec fn chat_pixels(width: int) -> int {
    held(width, CHAT_WIDTH_MIN * PIXEL, CHAT_WIDTH_MAX * PIXEL)
}

pub fn chat_width(width: i64) -> (r: u32)
    ensures
        r == chat_pixels(width as int),
{
    if width < (CHAT_WIDTH_MIN * PIXEL) as i64 {
        CHAT_WIDTH_MIN * PIXEL
    } else if width > (CHAT_WIDTH_MAX * PIXEL) as i64 {
        CHAT_WIDTH_MAX * PIXEL
    } else {
        width as u32
    }
}

/// The width of a chat whose divider was dragged from `from` to `to`. Chat is to
/// the right of the video, so dragging left widens it.
pub fn dragged_width(width: u32, from: i32, to: i32) -> (r: u32)
    ensures
        r == chat_pixels(width + from - to),
{
    chat_width(width as i64 + from as i64 - to as i64)
}

/// The share of a cell that a video has after its divider was dragged from
/// `from` to `to`. `None` in a cell without a height, where nothing moves.
pub fn dragged_share(share: u32, from: i32, to: i32, cell_height: u32, shares: Shares) -> (r:
    Option<u32>)
    requires
        shares.least <= shares.most,
    ensures
        r == (if cell_height == 0 {
            None
        } else {
            Some(
                held(
                    (share * cell_height + (to - from) * WHOLE) / cell_height as int,
                    shares.least as int,
                    shares.most as int,
                ) as u32,
            )
        }),
{
    if cell_height == 0 {
        return None;
    }
    assert(0 <= share * cell_height <= 0xffff_ffff * 0xffff_ffff) by (nonlinear_arith)
        requires
            0 <= share <= 0xffff_ffff,
            0 <= cell_height <= 0xffff_ffff,
    ;
    let moved: i128 = share as i128 * cell_height as i128 + (to as i128 - from as i128)
        * WHOLE as i128;
    let ghost exact = moved as int / cell_height as int;
    if moved < 0 {
        proof {
            lemma_fundamental_div_mod(moved as int, cell_height as int);
            lemma_mod_bound(moved as int, cell_height as int);
            assert(exact < 0) by (nonlinear_arith)
                requires
                    cell_height * exact < 0,
                    cell_height > 0,
            ;
        }
        return Some(shares.least);
    }
    let next: i128 = moved / cell_height as i128;
    assert(next == exact);
    if next < shares.least as i128 {
        Some(shares.least)
    } else if next > shares.most as i128 {
        Some(shares.most)
    } else {
        Some(next as u32)
    }
}

/// What share of a stacked cell the video has on screen. A drag has to start
/// from it, and until somebody has dragged a divider it is only the box that
/// the layout derives.
pub open spec fn share_shown(count: int, body: Body, cols: int, shape: Shape, share: int, shares: Shares)
    -> int {
    let rows = rows_for(at_least_one(count), cols);
    let cell_height = extent_of(body.height as int, rows);
    if share > 0 {
        share
    } else if cell_height <= 0 {
        shares.least as int
    } else {
        held(
            box_height(extent_of(body.width as int, cols), cell_height, shape, 0, shares) * WHOLE
                / cell_height,
            shares.least as int,
            shares.most as int,
        )
    }
}

pub fn effective_video_share(count: u16, body: Body, shape: Shape, share: u32, shares: Shares) -> (r:
    u32)
    requires
        shares.least <= shares.most,
    ensures
        exists|cols: int, window: Shape|
            {
                &&& window.wide == body.width
                &&& window.high == (if body.height >= PIXEL {
                    body.height
                } else {
                    PIXEL
                })
                &&& #[trigger] is_best(at_least_one(count as int), window.usable(), cols)
                &&& r == share_shown(count as int, body, cols, shape, share as int, shares)
            },
{
    let window = body.aspect();
    let (rows, cols) = grid_shape(count, window);
    let ghost witness = cols as int;
    assert(is_best(at_least_one(count as int), window.usable(), witness));
    if share > 0 {
        return share;
    }
    let cell_height: u32 = cell_extent(body.height, rows);
    if cell_height == 0 {
        return shares.least;
    }
    let cell_width: u32 = cell_extent(body.width, cols);
    let box_: u64 = stacked_video_height(cell_width, cell_height, shape, 0, shares);
    let part: u128 = box_ as u128 * WHOLE as u128 / cell_height as u128;
    if part < shares.least as u128 {
        shares.least
    } else if part > shares.most as u128 {
        shares.most
    } else {
        part as u32
    }
}

/// How every pane of a grid is arranged: the same for all of them.
#[derive(Debug, Clone, Copy, PartialEq, Eq)]
pub struct Arrangement {
    pub rows: u16,
    pub cols: u16,
    /// Chat under the video rather than beside it.
    pub portrait: bool,
    /// Beside: how wide chat is, with the video taking the rest.
    pub chat_width: u32,
    pub cell_width: u32,
    pub cell_height: u32,
    /// Closing the last pane is what leaving the page is for.
    pub closable: bool,
    /// Which pane the keyboard acts on is worth saying where there are several.
    pub mark_active: bool,
}

/// Arrange `count` panes in a body.
pub fn arrange(count: u16, body: Body, chat: i64) -> (r: Arrangement)
    ensures
        ({
            let window = Shape {
                wide: body.width,
                high: if body.height >= PIXEL {
                    body.height
                } else {
                    PIXEL
                },
            };
            let panes = at_least_one(count as int);
            &&& is_best(panes, window.usable(), r.cols as int)
            &&& r.rows == rows_for(panes, r.cols as int)
            &&& r.portrait == (window.wide * r.rows * 10 < window.high * r.cols * 11)
            &&& r.chat_width == chat_pixels(chat as int)
            &&& r.cell_width == extent_of(body.width as int, r.cols as int)
            &&& r.cell_height == extent_of(body.height as int, r.rows as int)
            &&& r.closable == (count > 1)
            &&& r.mark_active == (count > 1)
        }),
{
    let window = body.aspect();
    let (rows, cols) = grid_shape(count, window);
    proof {
        lemma_rows(at_least_one(count as int), cols as int);
    }
    Arrangement {
        rows,
        cols,
        portrait: cell_is_portrait(cell_aspect(window, rows, cols)),
        chat_width: chat_width(chat),
        cell_width: cell_extent(body.width, cols),
        cell_height: cell_extent(body.height, rows),
        closable: count > 1,
        mark_active: count > 1,
    }
}

/// The panes that stand in a row, left to right.
pub open spec fn in_row(count: int, cols: int, row: int) -> Seq<int> {
    let from = row * cols;
    let upto = if from + cols <= count {
        from + cols
    } else {
        count
    };
    if from <= upto {
        Seq::new((upto - from) as nat, |i: int| from + i)
    } else {
        Seq::empty()
    }
}

/// Which panes stand in `row` of a grid of `cols` columns.
pub fn panes_in_row(count: u16, cols: u16, row: u16) -> (r: Vec<usize>)
    ensures
        r@.map_values(|i: usize| i as int) == in_row(count as int, cols as int, row as int),
{
    let mut out: Vec<usize> = Vec::new();
    assert(row * cols <= 0xffff * 0xffff) by (nonlinear_arith)
        requires
            row <= 0xffff,
            cols <= 0xffff,
    ;
    let from: u32 = row as u32 * cols as u32;
    let mut col: u16 = 0;
    let ghost wanted = in_row(count as int, cols as int, row as int);
    while col < cols && from + (col as u32) < count as u32
        invariant
            col <= cols,
            from == row * cols,
            from <= 0xffff * 0xffff,
            col <= wanted.len(),
            wanted == in_row(count as int, cols as int, row as int),
            out@.len() == col,
            forall|i: int| 0 <= i < out@.len() ==> (#[trigger] out@[i]) == from + i,
        decreases cols - col,
    {
        out.push((from + col as u32) as usize);
        col = col + 1;
    }
    assert(out@.map_values(|i: usize| i as int) =~= wanted);
    out
}

/// Every pane stands in one row of the grid, and in one place of that row.
pub proof fn law_every_pane_has_one_cell(count: int, cols: int, pane: int, row: int, place: int)
    requires
        1 <= cols <= count,
        0 <= pane < count,
    ensures
        ({
            let home = pane / cols;
            &&& 0 <= home < rows_for(count, cols)
            &&& 0 <= pane % cols < in_row(count, cols, home).len()
            &&& in_row(count, cols, home)[pane % cols] == pane
            &&& 0 <= row && 0 <= place < in_row(count, cols, row).len() && in_row(
                count,
                cols,
                row,
            )[place] == pane ==> row == home && place == pane % cols
        }),
{
    let home = pane / cols;
    lemma_fundamental_div_mod(pane, cols);
    lemma_mod_bound(pane, cols);
    lemma_div_pos_is_pos(pane, cols);
    lemma_rows(count, cols);
    assert(home * cols == cols * home) by (nonlinear_arith);
    assert(home < rows_for(count, cols)) by (nonlinear_arith)
        requires
            home * cols < count,
            rows_for(count, cols) * cols >= count,
            cols > 0,
    ;
    if 0 <= row && 0 <= place < in_row(count, cols, row).len() && in_row(count, cols, row)[place]
        == pane {
        assert(row * cols + place == pane);
        assert(place < cols);
        assert(row * cols == cols * row) by (nonlinear_arith);
        lemma_fundamental_div_mod_converse(pane, cols, row, place);
    }
}

// ── More laws ────────────────────────────────────────────────────────

/// There is one best grid, and whatever else would fit has cells no better: no
/// shape that fits is closer to either wanted shape than the cells of the best
/// are to the closer.
pub proof fn law_the_best_grid_is_one(count: int, shape: Shape, a: int, b: int)
    requires
        is_best(count, shape, a),
        is_best(count, shape, b),
    ensures
        a == b,
{
    if a < b {
        assert(fits(count, a));
    } else if b < a {
        assert(fits(count, b));
    }
}

/// A cell that is too wide by some factor is as bad as one that is too narrow by
/// the same, and one that is further off is worse.
pub proof fn law_too_wide_is_as_bad_as_too_narrow(x: int, y: int, k: int, more: int)
    requires
        0 < x,
        0 < y,
        1 <= k < more,
    ensures
        ({
            let wide = distance(k * x, y, x, y);
            let narrow = distance(x, k * y, x, y);
            &&& !less(wide, narrow) && !less(narrow, wide)
            &&& less(wide, distance(more * x, y, x, y))
            &&& less(narrow, distance(x, more * y, x, y))
            &&& !less(wide, distance(x, y, x, y))
        }),
{
    let xy = x * y;
    assert(xy > 0) by (nonlinear_arith)
        requires
            x > 0,
            y > 0,
            xy == x * y,
    ;
    assert((k * x) * y == k * xy && (k * y) * x == k * xy && (more * x) * y == more * xy && (more
        * y) * x == more * xy && y * x == xy) by (nonlinear_arith)
        requires
            xy == x * y,
    ;
    assert(k * xy >= xy && more * xy >= xy) by (nonlinear_arith)
        requires
            xy > 0,
            k >= 1,
            more >= 1,
    ;
    assert((k * xy) * xy < (more * xy) * xy) by (nonlinear_arith)
        requires
            xy > 0,
            k < more,
    ;
    assert(xy * xy <= (k * xy) * xy) by (nonlinear_arith)
        requires
            xy > 0,
            k >= 1,
    ;
    assert(xy * (k * xy) == (k * xy) * xy) by (nonlinear_arith);
    let even = distance(x, y, x, y);
    assert(even == (xy, xy));
    if k == 1 {
        assert(1 * x == x && 1 * y == y && 1 * xy == xy) by (nonlinear_arith);
    }
}

/// A cell is measured against the closer of the two shapes it may have.
pub proof fn law_a_cell_is_measured_against_the_closer(wide: int, high: int)
    requires
        wide > 0,
        high > 0,
    ensures
        !less(distance(wide, high, 20, 9), penalty(wide, high)),
        !less(distance(wide, high, 32, 27), penalty(wide, high)),
        penalty(wide, high) == distance(wide, high, 20, 9) || penalty(wide, high) == distance(
            wide,
            high,
            32,
            27,
        ),
{
    let a = distance(wide, high, 20, 9);
    let b = distance(wide, high, 32, 27);
    assert(!less(a, a) && !less(b, b));
}

/// One row, one column and any grid without an empty cell are worth trying; a
/// grid that would do with a row or a column less is not.
pub proof fn law_a_full_grid_is_tried(count: int, rows: int, cols: int)
    requires
        1 <= cols <= count,
        rows == rows_for(count, cols),
    ensures
        fits(count, cols) <==> rows * cols - count < rows && rows * cols - count < cols,
        count % cols == 0 ==> fits(count, cols),
{
    lemma_rows(count, cols);
    if count % cols == 0 {
        lemma_fundamental_div_mod(count, cols);
        let q = count / cols;
        assert(cols * q == q * cols) by (nonlinear_arith);
        lemma_fundamental_div_mod_converse(count + cols - 1, cols, q, cols - 1);
        assert(rows == q);
    }
}

/// The cells along an axis and the seams between them fill it, but for less than
/// a unit each.
pub proof fn law_cells_and_seams_fill_the_axis(total: int, count: int)
    requires
        1 <= count,
        3 * 64 * (count - 1) <= total,
    ensures
        ({
            let each = extent_of(total, count);
            let seams = 3 * 64 * (count - 1);
            count * each + seams <= total < count * (each + 1) + seams
        }),
{
    let seams = 3 * 64 * (count - 1);
    let each = extent_of(total, count);
    lemma_fundamental_div_mod(total - seams, count);
    lemma_mod_bound(total - seams, count);
    assert(count * (each + 1) == count * each + count) by (nonlinear_arith);
}

/// What is held between two ends is between them, and is not moved where it is
/// already.
pub proof fn law_what_is_held_is_between(value: int, least: int, most: int)
    requires
        least <= most,
    ensures
        least <= held(value, least, most) <= most,
        least <= value <= most ==> held(value, least, most) == value,
        value < least ==> held(value, least, most) == least,
        value > most ==> held(value, least, most) == most,
        at_least(value, least) >= least,
        value >= least ==> at_least(value, least) == value,
        value < least ==> at_least(value, least) == least,
{
}

/// Without a share that was dragged, a video in a stacked cell is as high as its
/// own shape makes it at the cell's width, to within a unit, and never higher
/// than leaves chat its room; with one, it is that share of the cell.
pub proof fn law_a_stacked_video_has_its_shape(
    width: int,
    height: int,
    shape: Shape,
    share: int,
    shares: Shares,
)
    requires
        width >= 0,
        height >= 0,
        shape.wide > 0,
        shape.high > 0,
        shares.least <= shares.most,
    ensures
        ({
            let free = box_height(width, height, shape, 0, shares);
            let cap = height * shares.most / 1_000_000;
            &&& free <= cap
            &&& free < cap ==> free * shape.wide <= width * shape.high < (free + 1) * shape.wide
            &&& width * shape.high / shape.wide as int >= cap ==> free == cap
        }),
        shares.least <= share <= shares.most && share > 0 ==> box_height(
            width,
            height,
            shape,
            share,
            shares,
        ) == height * share / 1_000_000,
{
    let x = width * shape.high;
    let w = shape.wide as int;
    lemma_fundamental_div_mod(x, w);
    lemma_mod_bound(x, w);
    let q = x / w;
    assert(w * q == q * w && (q + 1) * w == q * w + w) by (nonlinear_arith);
}

/// A window opens at its usual size where that takes no more than nine tenths of
/// the display, and else at nine tenths of it.
pub proof fn law_a_window_takes_nine_tenths_at_most(default: int, room: int)
    requires
        0 <= default,
        0 <= room,
    ensures
        10 * default <= 9 * room ==> fitted(default, room) == default,
        10 * default > 9 * room ==> 10 * fitted(default, room) <= 9 * room < 10 * (fitted(
            default,
            room,
        ) + 1),
{
}

/// A pane is as many pixels high as its share of the page, to the nearest, where
/// that is worth asking for.
pub proof fn law_a_pane_is_its_share_of_the_page(height: int, rows: int)
    requires
        0 <= height,
        1 <= rows,
    ensures
        PANE_HEIGHT_MIN <= pane_pixels(height, rows) <= PANE_HEIGHT_MAX,
        PANE_HEIGHT_MIN < pane_pixels(height, rows) < PANE_HEIGHT_MAX ==> {
            let p = pane_pixels(height, rows);
            -64 * rows <= 2 * (64 * rows * p) - 2 * height <= 64 * rows
        },
{
    let part = PIXEL * rows;
    let n = 2 * height + part;
    let q = n / (2 * part);
    lemma_fundamental_div_mod(n, 2 * part);
    lemma_mod_bound(n, 2 * part);
    assert((2 * part) * q == 2 * (64 * rows * q)) by (nonlinear_arith)
        requires
            part == 64 * rows,
    ;
}

/// Chat beside a video is as wide as was asked for, between 260 and 640 pixels,
/// and dragging its divider to the left makes it no narrower.
pub proof fn law_dragging_left_widens_chat(width: int, from: int, to: int, further: int)
    requires
        further <= to,
    ensures
        260 * 64 <= chat_pixels(width) <= 640 * 64,
        260 * 64 <= width <= 640 * 64 ==> chat_pixels(width) == width,
        chat_pixels(width + from - to) <= chat_pixels(width + from - further),
{
}

/// Chat goes under a cell that is narrower than eleven to ten, and only there;
/// one that stacks goes on doing so when it grows taller.
pub proof fn law_a_narrow_cell_stacks(k: int, cell: CellShape, taller: CellShape)
    requires
        cell.wide == taller.wide,
        cell.high <= taller.high,
        0 < k,
        cell.high == 10 * k,
    ensures
        stacks(cell) <==> cell.wide < 11 * k,
        stacks(cell) ==> stacks(taller),
{
}

/// The share that a seam is drawn at is the one it was dragged to; before it
/// has been, it is the share that the video takes, held between the least and
/// the most, and the least where there is no room at all.
pub proof fn law_a_seam_is_drawn_where_it_was_dragged(
    count: int,
    body: Body,
    cols: int,
    shape: Shape,
    share: int,
    shares: Shares,
)
    requires
        shares.least <= shares.most,
    ensures
        share > 0 ==> share_shown(count, body, cols, shape, share, shares) == share,
        share <= 0 ==> shares.least <= share_shown(count, body, cols, shape, share, shares)
            <= shares.most,
        share <= 0 && extent_of(body.height as int, rows_for(at_least_one(count), cols)) <= 0
            ==> share_shown(count, body, cols, shape, share, shares) == shares.least,
        ({
            let high = extent_of(body.height as int, rows_for(at_least_one(count), cols));
            let video = box_height(
                extent_of(body.width as int, cols),
                high,
                shape,
                0,
                shares,
            );
            let shown = share_shown(count, body, cols, shape, share, shares);
            share <= 0 && high > 0 && shares.least < shown < shares.most ==> shown * high <= video
                * WHOLE < (shown + 1) * high
        }),
{
    let high = extent_of(body.height as int, rows_for(at_least_one(count), cols));
    if share <= 0 && high > 0 {
        let video = box_height(extent_of(body.width as int, cols), high, shape, 0, shares);
        let n = video * WHOLE;
        let q = n / high;
        assert(q * high <= n < (q + 1) * high) by (nonlinear_arith)
            requires
                q == n / high,
                high > 0,
        ;
    }
}

} // verus!
