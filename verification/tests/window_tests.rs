use openuuyc::window::{
    colorref, edge_cursor, frame_len, move_target, resize_handles_shown, resize_target,
    reuse_texture, video_size, ResizeCursor, ResizeEdge, ResizeStart, WindowRect,
};

fn start(edge: ResizeEdge) -> ResizeStart {
    ResizeStart {
        origin_x: 100,
        origin_y: 100,
        width: 800,
        height: 600,
        edge,
    }
}

#[test]
fn east_drag_grows_the_width() {
    assert_eq!(
        resize_target(start(ResizeEdge::East), 50, 30, None, 640, 400, 0),
        WindowRect { left: 100, top: 100, width: 850, height: 600 }
    );
}

#[test]
fn west_drag_keeps_the_right_edge() {
    assert_eq!(
        resize_target(start(ResizeEdge::West), -50, 0, None, 640, 400, 0),
        WindowRect { left: 50, top: 100, width: 850, height: 600 }
    );
}

#[test]
fn size_never_drops_below_the_minimum() {
    assert_eq!(
        resize_target(start(ResizeEdge::SouthEast), -500, -500, None, 640, 400, 0),
        WindowRect { left: 100, top: 100, width: 640, height: 400 }
    );
    assert_eq!(
        resize_target(start(ResizeEdge::North), 0, 500, None, 640, 400, 0),
        WindowRect { left: 100, top: 300, width: 800, height: 400 }
    );
}

#[test]
fn horizontal_drag_with_aspect_sets_the_height() {
    assert_eq!(
        resize_target(start(ResizeEdge::East), 160, 0, Some((16, 9)), 640, 400, 40),
        WindowRect { left: 100, top: 100, width: 960, height: 580 }
    );
}

#[test]
fn vertical_drag_with_aspect_sets_the_width() {
    assert_eq!(
        resize_target(start(ResizeEdge::South), 0, 100, Some((16, 9)), 640, 400, 40),
        WindowRect { left: 100, top: 100, width: 1173, height: 700 }
    );
}

#[test]
fn diagonal_drag_follows_the_larger_relative_travel() {
    assert_eq!(
        resize_target(start(ResizeEdge::NorthWest), -90, -10, Some((16, 9)), 640, 400, 40),
        WindowRect { left: 10, top: 159, width: 890, height: 541 }
    );
    assert_eq!(
        resize_target(start(ResizeEdge::SouthEast), 10, 90, Some((16, 9)), 640, 400, 40),
        WindowRect { left: 100, top: 100, width: 1156, height: 690 }
    );
}

#[test]
fn title_drag_moves_by_the_pointer_travel() {
    assert_eq!(move_target((100, 100), (10, 10), (15, 5)), (105, 95));
    assert_eq!(move_target((i32::MAX - 1, 0), (0, 0), (10, 0)), (i32::MAX, 0));
    assert_eq!(move_target((i32::MIN + 1, 0), (10, 0), (0, 0)), (i32::MIN, 0));
}

#[test]
fn video_child_sits_below_the_title_bar() {
    assert_eq!(video_size(1280, 720, 40), (1280, 680));
    assert_eq!(video_size(0, 10, 40), (1, 1));
}

#[test]
fn colorref_packs_red_green_blue() {
    assert_eq!(colorref(0x12, 0x34, 0x56), 0x0056_3412);
}

#[test]
fn frame_length_checks() {
    assert_eq!(frame_len(2, 2, 16), Some(16));
    assert_eq!(frame_len(2, 2, 20), Some(16));
    assert_eq!(frame_len(2, 2, 15), None);
    assert_eq!(frame_len(0, 2, 100), None);
    assert!(reuse_texture(Some((2, 2)), 2, 2));
    assert!(!reuse_texture(Some((2, 3)), 2, 2));
    assert!(!reuse_texture(None, 2, 2));
}

use openuuyc::window::{
    cancel_pointer_operation, try_resize_target, MoveInput, MoveOutput, MoveState, ResizeDrag,
    ResizeInput,
};

fn frame() -> MoveInput {
    MoveInput {
        fullscreen: false,
        maximized: false,
        double_clicked: false,
        drag_started: false,
        drag_stopped: false,
        primary_down: true,
        cursor: Some((0, 0)),
        origin: Some((0, 0)),
    }
}

#[test]
fn title_drag_moves_the_window_until_release() {
    let mut m = MoveState::new();
    let out = m.update(MoveInput {
        drag_started: true,
        maximized: true,
        cursor: Some((500, 20)),
        origin: Some((100, 50)),
        ..frame()
    });
    assert!(out.capture);
    assert!(out.unmaximize);
    assert_eq!(out.move_to, Some((100, 50)));
    let out = m.update(MoveInput { cursor: Some((530, 10)), origin: None, ..frame() });
    assert_eq!(out.move_to, Some((130, 40)));
    assert!(!out.release_capture);
    let out = m.update(MoveInput { primary_down: false, ..frame() });
    assert!(out.release_capture);
    assert_eq!(out.move_to, None);
    assert_eq!(m.start, None);
}

#[test]
fn double_click_toggles_maximisation() {
    let mut m = MoveState::new();
    let out = m.update(MoveInput { double_clicked: true, ..frame() });
    assert_eq!(
        out,
        MoveOutput {
            release_capture: false,
            toggle_maximize: true,
            unmaximize: false,
            capture: false,
            move_to: None
        }
    );
}

#[test]
fn fullscreen_windows_do_not_move() {
    let mut m = MoveState { start: Some(((1, 1), (2, 2))) };
    let out = m.update(MoveInput { fullscreen: true, ..frame() });
    assert_eq!(out.move_to, None);
    assert!(!out.release_capture);
    assert_eq!(m.start, None);
}

#[test]
fn edge_drag_asks_for_sizes_until_release() {
    let mut r = ResizeDrag::new();
    let input = ResizeInput {
        edge: ResizeEdge::East,
        drag_started: true,
        drag_stopped: false,
        primary_down: true,
        cursor: Some((900, 300)),
        origin: Some((100, 100)),
        size: (800, 600),
        aspect: None,
        title: 0,
    };
    let out = r.update(input);
    assert!(out.capture);
    assert_eq!(out.target, Some(WindowRect { left: 100, top: 100, width: 800, height: 600 }));
    let out = r.update(ResizeInput { drag_started: false, cursor: Some((950, 300)), ..input });
    assert_eq!(out.target, Some(WindowRect { left: 100, top: 100, width: 850, height: 600 }));
    assert_eq!(r.requested, Some((850, 600)));
    let out = r.update(ResizeInput { drag_started: false, primary_down: false, ..input });
    assert!(out.release_capture);
    assert_eq!(out.target, None);
    assert_eq!(r.start, None);
}

#[test]
fn unrepresentable_resizes_are_refused() {
    let s = ResizeStart { origin_x: 0, origin_y: 0, width: 800, height: 600, edge: ResizeEdge::East };
    assert_eq!(try_resize_target(s, i32::MAX, 0, None, 640, 400, 0), None);
    assert_eq!(try_resize_target(s, 0, 0, Some((0, 9)), 640, 400, 0), None);
    assert_eq!(
        try_resize_target(s, 10, 0, None, 640, 400, 0),
        Some(WindowRect { left: 0, top: 0, width: 810, height: 600 })
    );
}

#[test]
fn cancelling_ends_both_drags() {
    let mut m = MoveState { start: Some(((1, 1), (2, 2))) };
    let mut r = ResizeDrag::new();
    assert!(cancel_pointer_operation(&mut m, &mut r));
    assert!(!cancel_pointer_operation(&mut m, &mut r));
}

#[test]
fn resize_handles_only_on_a_normal_resizable_window() {
    assert!(resize_handles_shown(true, false, false));
    assert!(!resize_handles_shown(false, false, false));
    assert!(!resize_handles_shown(true, true, false));
    assert!(!resize_handles_shown(true, false, true));
}

#[test]
fn resize_cursors_follow_the_edge() {
    assert_eq!(edge_cursor(ResizeEdge::NorthWest), ResizeCursor::NwSe);
    assert_eq!(edge_cursor(ResizeEdge::SouthEast), ResizeCursor::NwSe);
    assert_eq!(edge_cursor(ResizeEdge::NorthEast), ResizeCursor::NeSw);
    assert_eq!(edge_cursor(ResizeEdge::SouthWest), ResizeCursor::NeSw);
    assert_eq!(edge_cursor(ResizeEdge::North), ResizeCursor::Vertical);
    assert_eq!(edge_cursor(ResizeEdge::West), ResizeCursor::Horizontal);
}
