use perch::layout::{
    arrange, cell_aspect, cell_extent, cell_is_portrait, chat_width, dragged_share, dragged_width,
    effective_video_share, grid_shape, pane_height, panes_in_row, stacked_video_height, Body,
    CellShape, Shape, Shares, PIXEL, WHOLE,
};

/// An ordinary monitor.
const WIDE: Shape = Shape { wide: 16, high: 9 };
const ULTRAWIDE: Shape = Shape { wide: 32, high: 9 };
/// A rotated monitor.
const PORTRAIT: Shape = Shape { wide: 9, high: 16 };
const SQUARE: Shape = Shape { wide: 1, high: 1 };

const SHARES: Shares = Shares { least: 200_000, most: 800_000 };

fn px(pixels: f64) -> u32 {
    (pixels * PIXEL as f64).round() as u32
}

fn ratio(shape: Shape) -> f64 {
    shape.wide as f64 / shape.high as f64
}

/// The box a 16:9 stream gets in a cell tall enough not to cap it.
fn video_box_height(cell_width: u32) -> u64 {
    stacked_video_height(cell_width, u32::MAX, WIDE, 0, Shares { least: 0, most: WHOLE })
}

#[test]
fn one_pane_fills_the_window() {
    assert_eq!(grid_shape(1, WIDE), (1, 1));
    assert_eq!(grid_shape(1, PORTRAIT), (1, 1));
}

#[test]
fn two_panes_split_along_the_long_axis() {
    // Side by side on a normal monitor...
    assert_eq!(grid_shape(2, WIDE), (1, 2));
    // ...and stacked on a rotated one, without either being special-cased.
    assert_eq!(grid_shape(2, PORTRAIT), (2, 1));
}

#[test]
fn four_panes_form_a_square_on_a_normal_monitor() {
    assert_eq!(grid_shape(4, WIDE), (2, 2));
}

#[test]
fn an_ultrawide_prefers_a_single_row() {
    let (rows, cols) = grid_shape(4, ULTRAWIDE);
    assert_eq!(
        rows, 1,
        "expected one row on an ultrawide, got {rows}x{cols}"
    );
    assert_eq!(cols, 4);
}

#[test]
fn a_tall_window_stacks_four_panes_vertically() {
    let (rows, cols) = grid_shape(4, PORTRAIT);
    assert!(rows > cols, "expected a tall grid, got {rows}x{cols}");
}

#[test]
fn never_leaves_a_wholly_empty_row_or_column() {
    for count in 1..=4 {
        for aspect in [PORTRAIT, SQUARE, WIDE, ULTRAWIDE] {
            let (rows, cols) = grid_shape(count, aspect);
            assert!(
                rows * cols >= count,
                "{count} panes do not fit in {rows}x{cols}"
            );
            assert!(
                (rows - 1) * cols < count,
                "{rows}x{cols} leaves an empty row for {count} panes"
            );
        }
    }
}

#[test]
fn degenerate_aspects_fall_back_rather_than_panicking() {
    assert_eq!(grid_shape(2, Shape { wide: 0, high: 9 }), grid_shape(2, WIDE));
    assert_eq!(grid_shape(2, Shape { wide: 16, high: 0 }), grid_shape(2, WIDE));
    assert_eq!(grid_shape(0, WIDE), (1, 1));
}

/// The same choice in floating point, with the penalty in log space.
fn grid_shape_in_logarithms(count: usize, aspect: f64) -> (u16, u16) {
    let penalty = |cell: f64| {
        let beside = (cell / (16.0 / 9.0 * 1.25)).ln().abs();
        let below = (cell / (16.0 / 13.5)).ln().abs();
        beside.min(below)
    };
    let mut best = (1, 1);
    let mut least = f64::INFINITY;
    for cols in 1..=count {
        let rows = (count + cols - 1) / cols;
        if rows * cols >= count + rows || rows * cols >= count + cols {
            continue;
        }
        let found = penalty(aspect / cols as f64 * rows as f64);
        if found < least {
            least = found;
            best = (rows as u16, cols as u16);
        }
    }
    best
}

#[test]
fn the_grid_is_the_one_that_logarithms_choose() {
    for count in 1..=9u16 {
        for wide in (300..4000).step_by(37) {
            for high in (200..2200).step_by(61) {
                let shape = Shape { wide: wide * PIXEL, high: high * PIXEL };
                assert_eq!(
                    grid_shape(count, shape),
                    grid_shape_in_logarithms(count as usize, ratio(shape)),
                    "{count} panes in {wide}x{high}"
                );
            }
        }
    }
}

#[test]
fn a_stacked_video_always_leaves_room_for_chat() {
    let cell_width = px(900.0);
    // The *widest* cell that still stacks: a wider cell is a shorter one,
    // so this is the worst case for chat.
    let cell_height = px(900.0 / (1.1 - 0.001));
    assert!(cell_is_portrait(CellShape { wide: cell_width as u64, high: cell_height as u64 }));

    let video = video_box_height(cell_width);
    let chat = cell_height as u64 - video;
    assert!(
        video < cell_height as u64,
        "video {video} filled a {cell_height} cell"
    );
    assert!(
        chat * 4 > cell_height as u64,
        "chat got {chat} of {cell_height}, which is not a chat pane"
    );
}

#[test]
fn a_body_is_the_viewport_less_the_rail() {
    let (width, height) = (px(1600.0), px(921.0));
    let rail = px(236.0);

    let body = Body::of(width, height, rail);
    assert_eq!(body.width, px(1600.0 - 236.0));
    assert_eq!(body.height, px(921.0));
    assert!(ratio(body.aspect()) < ratio(Body::of(width, height, 0).aspect()));

    // Side by side, which is what the viewport's aspect chose: the box
    // must be sized from the body's half, not the window's.
    let cols = 2;
    let right = video_box_height(body.width / cols) as f64 / PIXEL as f64;
    let wrong = video_box_height(width / cols) as f64 / PIXEL as f64;
    assert!(
        (wrong - right - 236.0 / cols as f64 / (16.0 / 9.0)).abs() < 0.01,
        "the viewport-derived box is {wrong}, the body-derived one {right}"
    );

    // And the shape is the body's to choose, not the window's.
    assert_ne!(
        grid_shape(2, body.aspect()),
        grid_shape(2, Body::of(width, height, 0).aspect()),
        "the rail should change the grid for this window"
    );
}

#[test]
fn a_body_never_goes_negative() {
    let narrow = Body::of(px(100.0), 0, px(236.0));
    assert_eq!(narrow.width, 0);
    assert!(ratio(narrow.aspect()).is_finite());
}

#[test]
fn a_stacked_box_is_the_shape_of_its_stream() {
    let (width, height) = (px(900.0), px(1200.0));
    let most = height as u64 * SHARES.most as u64 / WHOLE as u64;
    assert_eq!(
        stacked_video_height(width, height, WIDE, 0, SHARES),
        video_box_height(width)
    );
    let four_three = Shape { wide: 4, high: 3 };
    assert_eq!(stacked_video_height(width, height, four_three, 0, SHARES), px(675.0) as u64);

    let vertical = stacked_video_height(width, height, PORTRAIT, 0, SHARES);
    assert_eq!(vertical, most);

    // A dragged share wins over any shape, clamped like the setting is.
    assert_eq!(
        stacked_video_height(width, height, four_three, WHOLE / 2, SHARES),
        px(600.0) as u64
    );
    assert_eq!(
        stacked_video_height(width, height, four_three, 990_000, SHARES),
        most
    );

    // Nonsense aspects fall back rather than dividing by zero.
    assert_eq!(
        stacked_video_height(width, height, Shape { wide: 0, high: 1 }, 0, SHARES),
        video_box_height(width)
    );
    assert_eq!(
        stacked_video_height(width, height, Shape { wide: 1, high: 0 }, 0, SHARES),
        video_box_height(width)
    );
}

#[test]
fn cells_report_their_own_aspect() {
    // Half the width, same height: half the aspect.
    let half = cell_aspect(WIDE, 1, 2);
    assert_eq!(half.wide * 9 * 2, half.high * 16);
    // Two rows and two columns of a 16:9 window is 16:9 again.
    let quarter = cell_aspect(WIDE, 2, 2);
    assert_eq!(quarter.wide * 9, quarter.high * 16);
}

#[test]
fn narrow_cells_stack_their_chat() {
    assert!(cell_is_portrait(CellShape { wide: 6, high: 10 }));
    assert!(!cell_is_portrait(CellShape { wide: 16, high: 9 }));
    assert!(!cell_is_portrait(CellShape { wide: 11, high: 10 }));
}

#[test]
fn seams_are_taken_out_before_a_cell_is_measured() {
    assert_eq!(cell_extent(px(1003.0), 2), px(500.0));
    assert_eq!(cell_extent(px(640.0), 1), px(640.0));
    assert_eq!(cell_extent(px(640.0), 0), px(640.0));
    assert_eq!(cell_extent(px(2.0), 2), 0);
}

#[test]
fn a_pane_asks_for_its_share_of_the_body() {
    assert_eq!(pane_height(px(1080.0), 2), 540);
    assert_eq!(pane_height(px(1081.0), 2), 541);
    assert_eq!(pane_height(px(100.0), 1), 180);
    assert_eq!(pane_height(px(9000.0), 1), 1440);
}

#[test]
fn dragging_the_divider_left_widens_chat() {
    assert_eq!(dragged_width(px(300.0), 0, -(px(50.0) as i32)), px(350.0));
    assert_eq!(dragged_width(px(300.0), 0, px(500.0) as i32), px(260.0));
    assert_eq!(chat_width(px(9000.0) as i64), px(640.0));
    assert_eq!(chat_width(-1), px(260.0));
}

#[test]
fn dragging_the_divider_down_grows_the_video() {
    let cell = px(1000.0);
    assert_eq!(dragged_share(500_000, 0, px(100.0) as i32, cell, SHARES), Some(600_000));
    assert_eq!(dragged_share(500_000, 0, -(px(900.0) as i32), cell, SHARES), Some(200_000));
    assert_eq!(dragged_share(500_000, 0, px(900.0) as i32, cell, SHARES), Some(800_000));
    assert_eq!(dragged_share(500_000, 0, 5, 0, SHARES), None);
}

#[test]
fn a_drag_starts_from_the_share_on_screen() {
    let body = Body { width: px(900.0), height: px(1200.0) };
    assert_eq!(effective_video_share(1, body, WIDE, 0, SHARES), 421_875);
    assert_eq!(effective_video_share(1, body, WIDE, 300_000, SHARES), 300_000);
    let flat = Body { width: px(900.0), height: 0 };
    assert_eq!(effective_video_share(1, flat, WIDE, 0, SHARES), 200_000);
}

#[test]
fn every_pane_stands_in_one_cell() {
    for count in 1..=9u16 {
        for aspect in [PORTRAIT, SQUARE, WIDE, ULTRAWIDE] {
            let (rows, cols) = grid_shape(count, aspect);
            let mut shown: Vec<usize> = Vec::new();
            for row in 0..rows {
                shown.extend(panes_in_row(count, cols, row));
            }
            assert_eq!(shown, (0..count as usize).collect::<Vec<_>>());
        }
    }
}

#[test]
fn a_grid_is_arranged_for_all_of_its_panes() {
    let body = Body { width: px(1600.0), height: px(900.0) };
    let four = arrange(4, body, px(300.0) as i64);
    assert_eq!((four.rows, four.cols), (2, 2));
    assert!(!four.portrait);
    assert_eq!(four.chat_width, px(300.0));
    assert_eq!(four.cell_width, px(798.5));
    assert_eq!(four.cell_height, px(448.5));
    assert!(four.closable && four.mark_active);

    let one = arrange(1, body, 0);
    assert!(!one.closable && !one.mark_active);
    assert_eq!(one.chat_width, px(260.0));
}
