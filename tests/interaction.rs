use dock_layout::dock::{Dock, SelectedFakeSplitter};
use dock_layout::interaction::{ButtonState, FrameInput};
use dock_layout::layout::{CursorGlyph, Placement, Point, Rect, SplitOrientation};

fn rect(min_x: i32, min_y: i32, max_x: i32, max_y: i32) -> Rect {
    Rect { min_x, min_y, max_x, max_y }
}

/// A horizontal container 1000 wide holding [200, 500, 300], synced, with its
/// two handles at x = 200 and x = 707.
fn three_way() -> Dock {
    let mut d = Dock::new();
    d.create_split(SplitOrientation::Horizontal, vec![200_000, 500_000, 300_000]).unwrap();
    d.sync();
    d
}

fn input(cursor: Option<Point>, button: ButtonState, motion_x: i64) -> FrameInput {
    FrameInput {
        window: true,
        cursor,
        motion_x,
        motion_y: 0,
        button,
        handle_rects: vec![Some(rect(200, 0, 205, 100)), Some(rect(707, 0, 712, 100))],
        container_rects: vec![Some(rect(0, 0, 1000, 100))],
    }
}

#[test]
fn hovering_a_handle_shows_column_resize() {
    let mut d = three_way();
    d.frame(&input(Some(Point { x: 202, y: 50 }), ButtonState::Released, 0));
    assert_eq!(d.cursor, CursorGlyph::ColResize);
    assert_eq!(d.selected, SelectedFakeSplitter(None));
}

#[test]
fn idle_frame_resets_cursor_to_default() {
    let mut d = three_way();
    d.cursor = CursorGlyph::RowResize;
    d.frame(&input(Some(Point { x: 50, y: 50 }), ButtonState::Released, 0));
    assert_eq!(d.cursor, CursorGlyph::Default);
}

#[test]
fn press_on_handle_starts_drag() {
    let mut d = three_way();
    d.frame(&input(Some(Point { x: 709, y: 10 }), ButtonState::JustPressed, 0));
    assert_eq!(d.selected, SelectedFakeSplitter(Some(1)));
    assert_eq!(d.cursor, CursorGlyph::ColResize);
    assert_eq!(d.get_ratios(0), Ok(vec![200_000, 500_000, 300_000]));
}

#[test]
fn drag_right_moves_first_handle() {
    let mut d = three_way();
    d.frame(&input(Some(Point { x: 202, y: 50 }), ButtonState::JustPressed, 0));
    assert_eq!(d.selected, SelectedFakeSplitter(Some(0)));
    d.frame(&input(Some(Point { x: 302, y: 50 }), ButtonState::Pressed, 100));
    assert_eq!(d.get_ratios(0), Ok(vec![300_000, 400_000, 300_000]));
    assert_eq!(d.selected, SelectedFakeSplitter(Some(0)));
    assert_eq!(d.cursor, CursorGlyph::ColResize);
    let w = d.sync();
    assert_eq!(w.len(), 1);
    assert_eq!(w[0].grid.columns, vec![300_000, 400_000, 300_000]);
}

#[test]
fn drag_stops_at_floor() {
    let mut d = three_way();
    d.selected = SelectedFakeSplitter(Some(0));
    d.frame(&input(Some(Point { x: 0, y: 50 }), ButtonState::Pressed, -500));
    assert_eq!(d.get_ratios(0), Ok(vec![100_000, 600_000, 300_000]));
}

#[test]
fn release_ends_drag_without_change() {
    let mut d = three_way();
    d.selected = SelectedFakeSplitter(Some(0));
    d.frame(&input(Some(Point { x: 50, y: 50 }), ButtonState::JustReleased, 100));
    assert_eq!(d.selected, SelectedFakeSplitter(None));
    assert_eq!(d.get_ratios(0), Ok(vec![200_000, 500_000, 300_000]));
    assert_eq!(d.cursor, CursorGlyph::Default);
}

#[test]
fn despawned_handle_aborts_drag() {
    let mut d = three_way();
    d.selected = SelectedFakeSplitter(Some(1));
    d.set_ratios(0, vec![500_000, 500_000]).unwrap();
    d.sync();
    d.frame(&input(Some(Point { x: 50, y: 50 }), ButtonState::Pressed, 100));
    assert_eq!(d.selected, SelectedFakeSplitter(None));
    assert_eq!(d.get_ratios(0), Ok(vec![500_000, 500_000]));
}

#[test]
fn handle_without_ratio_pair_aborts_drag() {
    let mut d = three_way();
    d.selected = SelectedFakeSplitter(Some(1));
    d.set_ratios(0, vec![500_000, 500_000]).unwrap();
    d.frame(&input(Some(Point { x: 50, y: 50 }), ButtonState::Pressed, 100));
    assert_eq!(d.selected, SelectedFakeSplitter(None));
    assert_eq!(d.get_ratios(0), Ok(vec![500_000, 500_000]));
}

#[test]
fn removed_container_aborts_drag() {
    let mut d = three_way();
    d.selected = SelectedFakeSplitter(Some(0));
    d.remove_split(0).unwrap();
    d.frame(&input(Some(Point { x: 202, y: 50 }), ButtonState::Pressed, 100));
    assert_eq!(d.selected, SelectedFakeSplitter(None));
    assert_eq!(d.cursor, CursorGlyph::Default);
}

#[test]
fn missing_window_skips_the_frame() {
    let mut d = three_way();
    d.selected = SelectedFakeSplitter(Some(0));
    d.cursor = CursorGlyph::ColResize;
    let mut i = input(Some(Point { x: 202, y: 50 }), ButtonState::Pressed, 100);
    i.window = false;
    d.frame(&i);
    assert_eq!(d.selected, SelectedFakeSplitter(Some(0)));
    assert_eq!(d.cursor, CursorGlyph::ColResize);
    assert_eq!(d.get_ratios(0), Ok(vec![200_000, 500_000, 300_000]));
}

#[test]
fn release_outside_window_ends_drag() {
    let mut d = three_way();
    d.selected = SelectedFakeSplitter(Some(0));
    d.cursor = CursorGlyph::ColResize;
    d.frame(&input(None, ButtonState::JustReleased, 100));
    assert_eq!(d.selected, SelectedFakeSplitter(None));
    assert_eq!(d.cursor, CursorGlyph::Default);
    assert_eq!(d.get_ratios(0), Ok(vec![200_000, 500_000, 300_000]));
}

#[test]
fn held_button_outside_window_keeps_drag_without_change() {
    let mut d = three_way();
    d.selected = SelectedFakeSplitter(Some(0));
    d.frame(&input(None, ButtonState::Pressed, 100));
    assert_eq!(d.selected, SelectedFakeSplitter(Some(0)));
    assert_eq!(d.get_ratios(0), Ok(vec![200_000, 500_000, 300_000]));
}

#[test]
fn reset_cursor_needs_a_window() {
    let mut d = three_way();
    d.cursor = CursorGlyph::RowResize;
    d.reset_cursor(false);
    assert_eq!(d.cursor, CursorGlyph::RowResize);
    d.reset_cursor(true);
    assert_eq!(d.cursor, CursorGlyph::Default);
}

#[test]
fn slow_drag_moves_a_little() {
    let mut d = Dock::new();
    d.create_split(SplitOrientation::Horizontal, vec![500_000, 500_000]).unwrap();
    d.sync();
    d.selected = SelectedFakeSplitter(Some(0));
    let mut i = input(Some(Point { x: 960, y: 50 }), ButtonState::Pressed, 1);
    i.container_rects = vec![Some(rect(0, 0, 1920, 100))];
    d.frame(&i);
    assert_eq!(d.get_ratios(0), Ok(vec![500_520, 499_480]));
}

#[test]
fn missing_cursor_skips_the_frame() {
    let mut d = three_way();
    d.frame(&input(None, ButtonState::JustPressed, 0));
    assert_eq!(d.selected, SelectedFakeSplitter(None));
    assert_eq!(d.cursor, CursorGlyph::Default);
}

#[test]
fn unresolved_container_keeps_session_without_change() {
    let mut d = three_way();
    d.selected = SelectedFakeSplitter(Some(0));
    let mut i = input(Some(Point { x: 202, y: 50 }), ButtonState::Pressed, 100);
    i.container_rects = vec![None];
    d.frame(&i);
    assert_eq!(d.selected, SelectedFakeSplitter(Some(0)));
    assert_eq!(d.get_ratios(0), Ok(vec![200_000, 500_000, 300_000]));
}

#[test]
fn second_press_does_not_steal_active_drag() {
    let mut d = three_way();
    d.selected = SelectedFakeSplitter(Some(0));
    d.frame(&input(Some(Point { x: 709, y: 50 }), ButtonState::JustPressed, 0));
    assert_eq!(d.selected, SelectedFakeSplitter(Some(0)));
}

#[test]
fn vertical_drag_uses_row_resize_and_y_motion() {
    let mut d = Dock::new();
    d.create_split(SplitOrientation::Vertical, vec![500_000, 500_000]).unwrap();
    d.sync();
    let i = FrameInput {
        window: true,
        cursor: Some(Point { x: 40, y: 101 }),
        motion_x: 999,
        motion_y: -50,
        button: ButtonState::JustPressed,
        handle_rects: vec![Some(rect(0, 100, 400, 105))],
        container_rects: vec![Some(rect(0, 0, 400, 200))],
    };
    d.frame(&i);
    assert_eq!(d.cursor, CursorGlyph::RowResize);
    assert_eq!(d.selected, SelectedFakeSplitter(Some(0)));
    assert_eq!(d.get_ratios(0), Ok(vec![250_000, 750_000]));
}

#[test]
fn splitters_are_placed_between_children() {
    let d = three_way();
    let containers = vec![Some(rect(0, 0, 1000, 100))];
    let children = vec![vec![
        Some(rect(0, 0, 200, 100)),
        Some(rect(207, 0, 707, 100)),
        Some(rect(714, 0, 1000, 100)),
    ]];
    let out = d.position_splitters(&containers, &children);
    assert_eq!(
        out,
        vec![
            Some(Placement { left: 200, top: 0, width: 5, height: 100 }),
            Some(Placement { left: 707, top: 0, width: 5, height: 100 }),
        ]
    );
}

#[test]
fn unresolved_geometry_skips_handle() {
    let d = three_way();
    let containers = vec![Some(rect(0, 0, 1000, 100))];
    let children = vec![vec![Some(rect(0, 0, 200, 100)), Some(rect(207, 0, 707, 100)), None]];
    let out = d.position_splitters(&containers, &children);
    assert_eq!(out[0], Some(Placement { left: 200, top: 0, width: 5, height: 100 }));
    assert_eq!(out[1], None);
    assert_eq!(d.position_splitters(&vec![None], &children), vec![None, None]);
}

#[test]
fn handle_without_following_child_is_skipped() {
    let d = three_way();
    let containers = vec![Some(rect(0, 0, 1000, 100))];
    let children = vec![vec![Some(rect(0, 0, 200, 100)), Some(rect(207, 0, 707, 100))]];
    let out = d.position_splitters(&containers, &children);
    assert_eq!(out[0], Some(Placement { left: 200, top: 0, width: 5, height: 100 }));
    assert_eq!(out[1], None);
}

#[test]
fn update_syncs_before_placing_and_interacting() {
    let mut d = Dock::new();
    d.create_split(SplitOrientation::Horizontal, vec![200_000, 500_000, 300_000]).unwrap();
    let children = vec![vec![
        Some(rect(0, 0, 200, 100)),
        Some(rect(207, 0, 707, 100)),
        Some(rect(714, 0, 1000, 100)),
    ]];
    let out = d.update(&input(Some(Point { x: 202, y: 50 }), ButtonState::JustPressed, 0), &children);
    assert_eq!(out.writes.len(), 1);
    assert_eq!(
        out.placements,
        vec![
            Some(Placement { left: 200, top: 0, width: 5, height: 100 }),
            Some(Placement { left: 707, top: 0, width: 5, height: 100 }),
        ]
    );
    assert_eq!(d.selected, SelectedFakeSplitter(Some(0)));
    assert_eq!(d.cursor, CursorGlyph::ColResize);
    let out = d.update(&input(Some(Point { x: 302, y: 50 }), ButtonState::Pressed, 100), &children);
    assert_eq!(out.writes.len(), 0);
    assert_eq!(d.get_ratios(0), Ok(vec![300_000, 400_000, 300_000]));
    let out = d.update(&input(Some(Point { x: 302, y: 50 }), ButtonState::JustReleased, 0), &children);
    assert_eq!(out.writes.len(), 1);
    assert_eq!(out.writes[0].grid.columns, vec![300_000, 400_000, 300_000]);
    assert_eq!(d.selected, SelectedFakeSplitter(None));
}
