//! Geometry of the borderless windows: dragging a window by its title bar,
//! resizing it from an edge while keeping the video's aspect ratio, the
//! native video child below the title bar, and GDI colour values.
use vstd::prelude::*;

verus! {

/// The edge or corner a resize drag started from.
#[derive(Clone, Copy, Debug, PartialEq, Eq, Structural)]
pub enum ResizeEdge {
    North,
    South,
    East,
    West,
    NorthEast,
    NorthWest,
    SouthEast,
    SouthWest,
}

/// Whether the window offers resize handles on its border: only a
/// resizable window that is neither maximised nor fullscreen.
pub fn resize_handles_shown(resizable: bool, maximized: bool, fullscreen: bool) -> (b: bool)
    ensures
        b == (resizable && !maximized && !fullscreen),
{
    resizable && !maximized && !fullscreen
}

/// The pointer shown over a resize handle.
#[derive(Clone, Copy, Debug, PartialEq, Eq, Structural)]
pub enum ResizeCursor {
    /// North-west to south-east diagonal.
    NwSe,
    /// North-east to south-west diagonal.
    NeSw,
    Vertical,
    Horizontal,
}

pub open spec fn spec_edge_cursor(edge: ResizeEdge) -> ResizeCursor {
    match edge {
        ResizeEdge::NorthWest | ResizeEdge::SouthEast => ResizeCursor::NwSe,
        ResizeEdge::NorthEast | ResizeEdge::SouthWest => ResizeCursor::NeSw,
        ResizeEdge::North | ResizeEdge::South => ResizeCursor::Vertical,
        ResizeEdge::East | ResizeEdge::West => ResizeCursor::Horizontal,
    }
}

/// The pointer over the handle of `edge`: diagonal at the corners, vertical
/// on the top and bottom edges, horizontal on the sides.
pub fn edge_cursor(edge: ResizeEdge) -> (c: ResizeCursor)
    ensures
        c == spec_edge_cursor(edge),
{
    match edge {
        ResizeEdge::NorthWest | ResizeEdge::SouthEast => ResizeCursor::NwSe,
        ResizeEdge::NorthEast | ResizeEdge::SouthWest => ResizeCursor::NeSw,
        ResizeEdge::North | ResizeEdge::South => ResizeCursor::Vertical,
        ResizeEdge::East | ResizeEdge::West => ResizeCursor::Horizontal,
    }
}

/// Where a resize drag started: the window's outer position and inner size.
#[derive(Clone, Copy, Debug, PartialEq, Eq, Structural)]
pub struct ResizeStart {
    pub origin_x: i32,
    pub origin_y: i32,
    pub width: u32,
    pub height: u32,
    pub edge: ResizeEdge,
}

/// The outer position and inner size a resize drag asks for.
#[derive(Clone, Copy, Debug, PartialEq, Eq, Structural)]
pub struct WindowRect {
    pub left: i32,
    pub top: i32,
    pub width: u32,
    pub height: u32,
}

pub open spec fn moves_west(e: ResizeEdge) -> bool {
    e == ResizeEdge::West || e == ResizeEdge::NorthWest || e == ResizeEdge::SouthWest
}

pub open spec fn moves_east(e: ResizeEdge) -> bool {
    e == ResizeEdge::East || e == ResizeEdge::NorthEast || e == ResizeEdge::SouthEast
}

pub open spec fn moves_north(e: ResizeEdge) -> bool {
    e == ResizeEdge::North || e == ResizeEdge::NorthEast || e == ResizeEdge::NorthWest
}

pub open spec fn moves_south(e: ResizeEdge) -> bool {
    e == ResizeEdge::South || e == ResizeEdge::SouthEast || e == ResizeEdge::SouthWest
}

pub open spec fn in_i32(x: int) -> bool {
    i32::MIN <= x <= i32::MAX
}

pub open spec fn abs(x: int) -> int {
    if x < 0 {
        -x
    } else {
        x
    }
}

pub open spec fn max(a: int, b: int) -> int {
    if a >= b {
        a
    } else {
        b
    }
}

/// Integer division rounding toward zero, as Rust's `/` does.
pub open spec fn trunc_div(a: int, b: int) -> int {
    if a >= 0 {
        a / b
    } else {
        -((-a) / b)
    }
}

/// The width the pointer asks for before limits: the start width moved by the
/// horizontal pointer travel on the dragged side.
pub open spec fn dragged_width(s: ResizeStart, dx: i32) -> int {
    (s.width as i32) as int + if moves_east(s.edge) {
        dx as int
    } else if moves_west(s.edge) {
        -dx
    } else {
        0
    }
}

pub open spec fn dragged_height(s: ResizeStart, dy: i32) -> int {
    (s.height as i32) as int + if moves_south(s.edge) {
        dy as int
    } else if moves_north(s.edge) {
        -dy
    } else {
        0
    }
}

pub open spec fn horizontal_only(e: ResizeEdge) -> bool {
    (moves_west(e) || moves_east(e)) && !moves_north(e) && !moves_south(e)
}

pub open spec fn vertical_only(e: ResizeEdge) -> bool {
    (moves_north(e) || moves_south(e)) && !moves_west(e) && !moves_east(e)
}

/// With a fixed aspect ratio, the width decides the height when the drag is
/// horizontal, or diagonal with at least as much horizontal travel relative
/// to the video's proportions.
pub open spec fn width_drives(e: ResizeEdge, dx: i32, dy: i32, vw: u32, vh: u32) -> bool {
    horizontal_only(e) || (!vertical_only(e) && abs(dx as int) * vh >= abs(dy as int) * vw)
}

/// The size a resize drag asks for, as `(width, height)` before conversion
/// to unsigned: the dragged size raised to the minimum, then with an aspect
/// ratio one side recomputed from the other (rounded to nearest) below a
/// title bar of `title` pixels.
pub open spec fn resize_size(
    s: ResizeStart,
    dx: i32,
    dy: i32,
    aspect: Option<(u32, u32)>,
    min_w: u32,
    min_h: u32,
    title: u32,
) -> (int, int) {
    let min_width = (min_w as i32) as int;
    let min_height = (min_h as i32) as int;
    let w = max(dragged_width(s, dx), min_width);
    let h = max(dragged_height(s, dy), min_height);
    match aspect {
        None => (w, h),
        Some((vw, vh)) => {
            let th = (title as i32) as int;
            if width_drives(s.edge, dx, dy, vw, vh) {
                let q = trunc_div(w * vh + vw / 2, vw as int);
                (w, max((q as i32) as int + th, min_height))
            } else {
                let content = max(h - th, 1);
                let q = trunc_div(content * vw + vh / 2, vh as int);
                (max((q as i32) as int, min_width), h)
            }
        },
    }
}

/// The inputs for which the resize computation stays within `i32` and never
/// divides by zero (elsewhere the arithmetic overflows).
pub open spec fn resize_defined(
    s: ResizeStart,
    dx: i32,
    dy: i32,
    aspect: Option<(u32, u32)>,
    min_w: u32,
    min_h: u32,
    title: u32,
) -> bool {
    let e = s.edge;
    let (w, h) = resize_size(s, dx, dy, aspect, min_w, min_h, title);
    &&& !moves_east(e) && moves_west(e) ==> dx != i32::MIN
    &&& !moves_south(e) && moves_north(e) ==> dy != i32::MIN
    &&& in_i32(dragged_width(s, dx))
    &&& in_i32(dragged_height(s, dy))
    &&& match aspect {
        None => true,
        Some((vw, vh)) => {
            let th = (title as i32) as int;
            let min_height = (min_h as i32) as int;
            let hh = max(dragged_height(s, dy), min_height);
            &&& !horizontal_only(e) && !vertical_only(e) ==> dx != i32::MIN && dy != i32::MIN
            &&& width_drives(e, dx, dy, vw, vh) ==> vw > 0 && in_i32(
                (trunc_div(max(dragged_width(s, dx), (min_w as i32) as int) * vh + vw / 2, vw as int)
                    as i32) as int + th,
            )
            &&& !width_drives(e, dx, dy, vw, vh) ==> vh > 0 && in_i32(hh - th)
        },
    }
    &&& moves_west(e) ==> in_i32(s.origin_x + (s.width as i32) as int) && in_i32(
        s.origin_x + (s.width as i32) as int - w,
    )
    &&& moves_north(e) ==> in_i32(s.origin_y + (s.height as i32) as int) && in_i32(
        s.origin_y + (s.height as i32) as int - h,
    )
}

/// Where the window goes: a drag from the west or north moves that edge and
/// keeps the opposite one in place.
pub open spec fn resized(
    s: ResizeStart,
    dx: i32,
    dy: i32,
    aspect: Option<(u32, u32)>,
    min_w: u32,
    min_h: u32,
    title: u32,
) -> WindowRect {
    let (w, h) = resize_size(s, dx, dy, aspect, min_w, min_h, title);
    WindowRect {
        left: if moves_west(s.edge) {
            (s.origin_x + (s.width as i32) as int - w) as i32
        } else {
            s.origin_x
        },
        top: if moves_north(s.edge) {
            (s.origin_y + (s.height as i32) as int - h) as i32
        } else {
            s.origin_y
        },
        width: w as u32,
        height: h as u32,
    }
}

/// The window rectangle for a resize drag that has moved the pointer by
/// `(dx, dy)` since it started. `aspect` is the video's size when the aspect
/// is locked; `title` is the title bar height in pixels.
pub fn resize_target(
    s: ResizeStart,
    dx: i32,
    dy: i32,
    aspect: Option<(u32, u32)>,
    min_w: u32,
    min_h: u32,
    title: u32,
) -> (r: WindowRect)
    requires
        resize_defined(s, dx, dy, aspect, min_w, min_h, title),
    ensures
        r == resized(s, dx, dy, aspect, min_w, min_h, title),
{
    let e = s.edge;
    let west = e == ResizeEdge::West || e == ResizeEdge::NorthWest || e == ResizeEdge::SouthWest;
    let east = e == ResizeEdge::East || e == ResizeEdge::NorthEast || e == ResizeEdge::SouthEast;
    let north = e == ResizeEdge::North || e == ResizeEdge::NorthEast || e == ResizeEdge::NorthWest;
    let south = e == ResizeEdge::South || e == ResizeEdge::SouthEast || e == ResizeEdge::SouthWest;
    let mut width: i32 = s.width as i32 + if east {
        dx
    } else if west {
        -dx
    } else {
        0
    };
    let mut height: i32 = s.height as i32 + if south {
        dy
    } else if north {
        -dy
    } else {
        0
    };
    let min_width: i32 = min_w as i32;
    let min_height: i32 = min_h as i32;
    if width < min_width {
        width = min_width;
    }
    if height < min_height {
        height = min_height;
    }
    match aspect {
        Some((vw, vh)) => {
            let title_height: i32 = title as i32;
            let horizontal = (west || east) && !north && !south;
            let vertical = (north || south) && !west && !east;
            let mut drives = horizontal;
            if !horizontal && !vertical {
                let ax: i64 = if dx < 0 {
                    -(dx as i64)
                } else {
                    dx as i64
                };
                let ay: i64 = if dy < 0 {
                    -(dy as i64)
                } else {
                    dy as i64
                };
                assert(ax * vh <= 0x7fff_ffff * 0xffff_ffff) by (nonlinear_arith)
                    requires
                        0 <= ax <= 0x7fff_ffff,
                        vh <= 0xffff_ffff,
                ;
                assert(ay * vw <= 0x7fff_ffff * 0xffff_ffff) by (nonlinear_arith)
                    requires
                        0 <= ay <= 0x7fff_ffff,
                        vw <= 0xffff_ffff,
                ;
                drives = ax * (vh as i64) >= ay * (vw as i64);
            }
            if drives {
                let w: i64 = width as i64;
                assert(-0x8000_0000 * 0xffff_ffff <= w * vh <= 0x7fff_ffff * 0xffff_ffff)
                    by (nonlinear_arith)
                    requires
                        -0x8000_0000 <= w <= 0x7fff_ffff,
                        vh <= 0xffff_ffff,
                ;
                let q: i64 = (w * (vh as i64) + (vw as i64) / 2) / (vw as i64);
                height = q as i32 + title_height;
                if height < min_height {
                    height = min_height;
                }
            } else {
                let mut content: i32 = height - title_height;
                if content < 1 {
                    content = 1;
                }
                let c: i64 = content as i64;
                assert(c * vw <= 0x7fff_ffff * 0xffff_ffff) by (nonlinear_arith)
                    requires
                        1 <= c <= 0x7fff_ffff,
                        vw <= 0xffff_ffff,
                ;
                let q: i64 = (c * (vw as i64) + (vh as i64) / 2) / (vh as i64);
                width = q as i32;
                if width < min_width {
                    width = min_width;
                }
            }
        },
        None => {},
    }
    let left: i32 = if west {
        s.origin_x + s.width as i32 - width
    } else {
        s.origin_x
    };
    let top: i32 = if north {
        s.origin_y + s.height as i32 - height
    } else {
        s.origin_y
    };
    WindowRect { left, top, width: width as u32, height: height as u32 }
}



fn fits_i32(x: i64) -> (b: bool)
    ensures
        b == in_i32(x as int),
{
    x >= i32::MIN as i64 && x <= i32::MAX as i64
}

fn resize_ok(
    s: ResizeStart,
    dx: i32,
    dy: i32,
    aspect: Option<(u32, u32)>,
    min_w: u32,
    min_h: u32,
    title: u32,
) -> (b: bool)
    ensures
        b == resize_defined(s, dx, dy, aspect, min_w, min_h, title),
{
    let e = s.edge;
    let west = e == ResizeEdge::West || e == ResizeEdge::NorthWest || e == ResizeEdge::SouthWest;
    let east = e == ResizeEdge::East || e == ResizeEdge::NorthEast || e == ResizeEdge::SouthEast;
    let north = e == ResizeEdge::North || e == ResizeEdge::NorthEast || e == ResizeEdge::NorthWest;
    let south = e == ResizeEdge::South || e == ResizeEdge::SouthEast || e == ResizeEdge::SouthWest;
    if !east && west && dx == i32::MIN {
        return false;
    }
    if !south && north && dy == i32::MIN {
        return false;
    }
    let w0: i64 = (s.width as i32) as i64 + if east {
        dx as i64
    } else if west {
        -(dx as i64)
    } else {
        0
    };
    let h0: i64 = (s.height as i32) as i64 + if south {
        dy as i64
    } else if north {
        -(dy as i64)
    } else {
        0
    };
    if !fits_i32(w0) || !fits_i32(h0) {
        return false;
    }
    let min_width: i64 = (min_w as i32) as i64;
    let min_height: i64 = (min_h as i32) as i64;
    let mut w: i64 = if w0 >= min_width {
        w0
    } else {
        min_width
    };
    let mut h: i64 = if h0 >= min_height {
        h0
    } else {
        min_height
    };
    match aspect {
        Some((vw, vh)) => {
            let th: i64 = (title as i32) as i64;
            let horizontal = (west || east) && !north && !south;
            let vertical = (north || south) && !west && !east;
            let mut drives = horizontal;
            if !horizontal && !vertical {
                if dx == i32::MIN || dy == i32::MIN {
                    return false;
                }
                let ax: i64 = if dx < 0 {
                    -(dx as i64)
                } else {
                    dx as i64
                };
                let ay: i64 = if dy < 0 {
                    -(dy as i64)
                } else {
                    dy as i64
                };
                assert(ax * vh <= 0x7fff_ffff * 0xffff_ffff) by (nonlinear_arith)
                    requires
                        0 <= ax <= 0x7fff_ffff,
                        vh <= 0xffff_ffff,
                ;
                assert(ay * vw <= 0x7fff_ffff * 0xffff_ffff) by (nonlinear_arith)
                    requires
                        0 <= ay <= 0x7fff_ffff,
                        vw <= 0xffff_ffff,
                ;
                drives = ax * (vh as i64) >= ay * (vw as i64);
            }
            if drives {
                if vw == 0 {
                    return false;
                }
                assert(-0x8000_0000 * 0xffff_ffff <= w * vh <= 0x7fff_ffff * 0xffff_ffff)
                    by (nonlinear_arith)
                    requires
                        -0x8000_0000 <= w <= 0x7fff_ffff,
                        vh <= 0xffff_ffff,
                ;
                let q: i64 = (w * (vh as i64) + (vw as i64) / 2) / (vw as i64);
                let hq: i64 = (q as i32) as i64 + th;
                if !fits_i32(hq) {
                    return false;
                }
                h = if hq >= min_height {
                    hq
                } else {
                    min_height
                };
            } else {
                if vh == 0 {
                    return false;
                }
                if !fits_i32(h - th) {
                    return false;
                }
                let c: i64 = if h - th >= 1 {
                    h - th
                } else {
                    1
                };
                assert(c * vw <= 0x7fff_ffff * 0xffff_ffff) by (nonlinear_arith)
                    requires
                        1 <= c <= 0x7fff_ffff,
                        vw <= 0xffff_ffff,
                ;
                let q: i64 = (c * (vw as i64) + (vh as i64) / 2) / (vh as i64);
                let wq: i64 = (q as i32) as i64;
                w = if wq >= min_width {
                    wq
                } else {
                    min_width
                };
            }
        },
        None => {},
    }
    assert((w as int, h as int) == resize_size(s, dx, dy, aspect, min_w, min_h, title));
    let right: i64 = s.origin_x as i64 + (s.width as i32) as i64;
    let bottom: i64 = s.origin_y as i64 + (s.height as i32) as i64;
    if west && !(fits_i32(right) && fits_i32(right - w)) {
        return false;
    }
    if north && !(fits_i32(bottom) && fits_i32(bottom - h)) {
        return false;
    }
    true
}

/// `resize_target` for any input: `None` where the computation would
/// overflow `i32` or divide by zero.
pub fn try_resize_target(
    s: ResizeStart,
    dx: i32,
    dy: i32,
    aspect: Option<(u32, u32)>,
    min_w: u32,
    min_h: u32,
    title: u32,
) -> (r: Option<WindowRect>)
    ensures
        r == (if resize_defined(s, dx, dy, aspect, min_w, min_h, title) {
            Some(resized(s, dx, dy, aspect, min_w, min_h, title))
        } else {
            None
        }),
{
    if resize_ok(s, dx, dy, aspect, min_w, min_h, title) {
        Some(resize_target(s, dx, dy, aspect, min_w, min_h, title))
    } else {
        None
    }
}


/// An edge drag in progress, the window's minimum size and the size last
/// asked for.
#[derive(Clone, Copy, Debug, PartialEq, Eq)]
pub struct ResizeDrag {
    /// The pointer position and window geometry when the drag started.
    pub start: Option<((i32, i32), ResizeStart)>,
    pub min_size: Option<(u32, u32)>,
    pub requested: Option<(u32, u32)>,
}

/// What one frame tells an edge drag.
#[derive(Clone, Copy, Debug, PartialEq, Eq)]
pub struct ResizeInput {
    pub edge: ResizeEdge,
    pub drag_started: bool,
    pub drag_stopped: bool,
    pub primary_down: bool,
    pub cursor: Option<(i32, i32)>,
    pub origin: Option<(i32, i32)>,
    pub size: (u32, u32),
    pub aspect: Option<(u32, u32)>,
    pub title: u32,
}

/// What the window must do for the frame.
#[derive(Clone, Copy, Debug, PartialEq, Eq)]
pub struct ResizeOutput {
    pub capture: bool,
    pub release_capture: bool,
    pub target: Option<WindowRect>,
}

/// The minimum window size where none was set.
pub open spec fn effective_min(min_size: Option<(u32, u32)>) -> (u32, u32) {
    match min_size {
        Some(m) => m,
        None => (640, 400),
    }
}

pub open spec fn resize_begins(input: ResizeInput) -> bool {
    input.drag_started && input.cursor is Some && input.origin is Some
}

pub open spec fn resize_start(drag: ResizeDrag, input: ResizeInput) -> Option<((i32, i32), ResizeStart)> {
    if resize_begins(input) {
        match (input.cursor, input.origin) {
            (Some(c), Some(o)) => Some(
                (
                    c,
                    ResizeStart {
                        origin_x: o.0,
                        origin_y: o.1,
                        width: input.size.0,
                        height: input.size.1,
                        edge: input.edge,
                    },
                ),
            ),
            _ => None,
        }
    } else {
        drag.start
    }
}

/// The rectangle asked for while the button is held: the drag's geometry
/// for the pointer's travel, where that is defined.
pub open spec fn resize_request(drag: ResizeDrag, input: ResizeInput) -> Option<WindowRect> {
    match (resize_start(drag, input), input.cursor) {
        (Some((c0, start)), Some(c)) => {
            let dx = (c.0 - c0.0) as i32;
            let dy = (c.1 - c0.1) as i32;
            let (mw, mh) = effective_min(drag.min_size);
            if input.primary_down && resize_defined(start, dx, dy, input.aspect, mw, mh, input.title) {
                Some(resized(start, dx, dy, input.aspect, mw, mh, input.title))
            } else {
                None
            }
        },
        _ => None,
    }
}

pub open spec fn resize_step(drag: ResizeDrag, input: ResizeInput) -> (ResizeDrag, ResizeOutput) {
    let s1 = resize_start(drag, input);
    let target = resize_request(drag, input);
    let ends = input.drag_stopped || !input.primary_down;
    (
        ResizeDrag {
            start: if ends {
                None
            } else {
                s1
            },
            requested: match target {
                Some(r) => Some((r.width, r.height)),
                None => drag.requested,
            },
            ..drag
        },
        ResizeOutput { capture: resize_begins(input), release_capture: ends && s1 is Some, target },
    )
}

pub open spec fn resize_travel_fits(drag: ResizeDrag, input: ResizeInput) -> bool {
    match (resize_start(drag, input), input.cursor) {
        (Some((c0, _)), Some(c)) => in_i32(c.0 - c0.0) && in_i32(c.1 - c0.1),
        _ => true,
    }
}

impl ResizeDrag {
    pub fn new() -> (d: Self)
        ensures
            d.start is None,
            d.min_size is None,
            d.requested is None,
    {
        ResizeDrag { start: None, min_size: None, requested: None }
    }

    /// Advances an edge drag by one frame. The pointer's travel since the
    /// drag started must fit in `i32`.
    pub fn update(&mut self, input: ResizeInput) -> (out: ResizeOutput)
        requires
            input.primary_down ==> resize_travel_fits(*old(self), input),
        ensures
            (*final(self), out) == resize_step(*old(self), input),
    {
        let mut out = ResizeOutput { capture: false, release_capture: false, target: None };
        if input.drag_started {
            match (input.cursor, input.origin) {
                (Some(cursor), Some(origin)) => {
                    self.start = Some(
                        (
                            cursor,
                            ResizeStart {
                                origin_x: origin.0,
                                origin_y: origin.1,
                                width: input.size.0,
                                height: input.size.1,
                                edge: input.edge,
                            },
                        ),
                    );
                    out.capture = true;
                },
                _ => {},
            }
        }
        if input.primary_down {
            match (self.start, input.cursor) {
                (Some((c0, start)), Some(c)) => {
                    let (mw, mh) = match self.min_size {
                        Some(m) => m,
                        None => (640, 400),
                    };
                    let target = try_resize_target(
                        start,
                        c.0 - c0.0,
                        c.1 - c0.1,
                        input.aspect,
                        mw,
                        mh,
                        input.title,
                    );
                    match target {
                        Some(r) => self.requested = Some((r.width, r.height)),
                        None => {},
                    }
                    out.target = target;
                },
                _ => {},
            }
        }
        if input.drag_stopped || !input.primary_down {
            out.release_capture = self.start.is_some();
            self.start = None;
        }
        out
    }
}


/// Ends any title or edge drag, as losing focus does; returns whether the
/// pointer capture must be released.
pub fn cancel_pointer_operation(moving: &mut MoveState, resizing: &mut ResizeDrag) -> (release: bool)
    ensures
        release == (old(moving).start is Some || old(resizing).start is Some),
        final(moving).start is None,
        final(resizing).start is None,
        final(resizing).min_size == old(resizing).min_size,
        final(resizing).requested == old(resizing).requested,
{
    let a = moving.start.is_some();
    let b = resizing.start.is_some();
    moving.start = None;
    resizing.start = None;
    a || b
}

/// A resize never goes below the minimum size, and the edge opposite the
/// dragged one stays where it was.
pub proof fn lemma_resize_keeps_limits(
    s: ResizeStart,
    dx: i32,
    dy: i32,
    aspect: Option<(u32, u32)>,
    min_w: u32,
    min_h: u32,
    title: u32,
)
    requires
        resize_defined(s, dx, dy, aspect, min_w, min_h, title),
    ensures
        ({
            let (w, h) = resize_size(s, dx, dy, aspect, min_w, min_h, title);
            let r = resized(s, dx, dy, aspect, min_w, min_h, title);
            &&& w >= (min_w as i32) as int
            &&& h >= (min_h as i32) as int
            &&& moves_west(s.edge) ==> r.left + w == s.origin_x + (s.width as i32) as int
            &&& !moves_west(s.edge) ==> r.left == s.origin_x
            &&& moves_north(s.edge) ==> r.top + h == s.origin_y + (s.height as i32) as int
            &&& !moves_north(s.edge) ==> r.top == s.origin_y
        }),
{
}

/// Where a title-bar drag puts the window: the start position moved by the
/// pointer's travel, saturating at the `i32` range.
pub open spec fn dragged_to(origin: (i32, i32), start: (i32, i32), cursor: (i32, i32)) -> (i32, i32) {
    (
        saturate_i32(origin.0 + (cursor.0 - start.0)),
        saturate_i32(origin.1 + (cursor.1 - start.1)),
    )
}

pub open spec fn saturate_i32(x: int) -> i32 {
    if x < i32::MIN {
        i32::MIN
    } else if x > i32::MAX {
        i32::MAX
    } else {
        x as i32
    }
}

/// The outer position for a title-bar drag that started with the window at
/// `origin` and the pointer at `start`, now at `cursor`.
pub fn move_target(origin: (i32, i32), start: (i32, i32), cursor: (i32, i32)) -> (r: (i32, i32))
    requires
        in_i32(cursor.0 - start.0),
        in_i32(cursor.1 - start.1),
    ensures
        r == dragged_to(origin, start, cursor),
{
    (saturating_add(origin.0, cursor.0 - start.0), saturating_add(origin.1, cursor.1 - start.1))
}

/// `i32::saturating_add`.
fn saturating_add(a: i32, b: i32) -> (r: i32)
    ensures
        r == saturate_i32(a + b),
{
    let x: i64 = a as i64 + b as i64;
    if x < i32::MIN as i64 {
        i32::MIN
    } else if x > i32::MAX as i64 {
        i32::MAX
    } else {
        x as i32
    }
}

/// The size of the video child window in a client area of `width` by
/// `height` below a title bar of `top` pixels: never empty.
pub fn video_size(width: u32, height: u32, top: u32) -> (r: (u32, u32))
    ensures
        r.0 == max(width as int, 1),
        r.1 == max(if height >= top {
            height - top
        } else {
            0
        }, 1),
{
    let w: u32 = if width < 1 {
        1
    } else {
        width
    };
    let h0: u32 = height.saturating_sub(top);
    let h: u32 = if h0 < 1 {
        1
    } else {
        h0
    };
    (w, h)
}

/// A GDI `COLORREF`: red in the low byte, then green, then blue.
pub fn colorref(r: u8, g: u8, b: u8) -> (c: u32)
    ensures
        c == r + g * 256 + b * 65536,
{
    let c: u32 = (r as u32) | ((g as u32) << 8) | ((b as u32) << 16);
    let (rr, gg, bb) = (r as u32, g as u32, b as u32);
    assert(((rr | (gg << 8u32)) | (bb << 16u32)) == rr + gg * 256 + bb * 65536) by (bit_vector)
        requires
            rr < 256,
            gg < 256,
            bb < 256,
    ;
    c
}


/// The bytes of a `width` by `height` RGBA frame, when `available` bytes hold
/// it; `None` for an empty frame or too little data.
pub fn frame_len(width: u32, height: u32, available: usize) -> (r: Option<usize>)
    requires
        width * height * 4 <= usize::MAX,
    ensures
        r == (if width > 0 && height > 0 && width * height * 4 <= available {
            Some((width * height * 4) as usize)
        } else {
            None
        }),
{
    if width == 0 || height == 0 {
        return None;
    }
    assert(width * height <= width * height * 4) by (nonlinear_arith)
        requires
            width > 0,
            height > 0,
    ;
    let need: usize = width as usize * height as usize * 4;
    if available >= need {
        Some(need)
    } else {
        None
    }
}

/// Whether the video texture can take a frame of this size as it is.
pub fn reuse_texture(current: Option<(u32, u32)>, width: u32, height: u32) -> (b: bool)
    ensures
        b == (current == Some((width, height))),
{
    match current {
        Some((w, h)) => w == width && h == height,
        None => false,
    }
}


/// A title-bar drag in progress: the pointer and window positions when it
/// started.
#[derive(Clone, Copy, Debug, PartialEq, Eq)]
pub struct MoveState {
    pub start: Option<((i32, i32), (i32, i32))>,
}

/// What one frame tells the title-bar drag: the drag gestures egui reports,
/// the window's state, and the pointer and window positions where the system
/// reports them.
#[derive(Clone, Copy, Debug, PartialEq, Eq)]
pub struct MoveInput {
    pub fullscreen: bool,
    pub maximized: bool,
    pub double_clicked: bool,
    pub drag_started: bool,
    pub drag_stopped: bool,
    pub primary_down: bool,
    pub cursor: Option<(i32, i32)>,
    pub origin: Option<(i32, i32)>,
}

/// What the window must do for the frame.
#[derive(Clone, Copy, Debug, PartialEq, Eq)]
pub struct MoveOutput {
    pub release_capture: bool,
    pub toggle_maximize: bool,
    pub unmaximize: bool,
    pub capture: bool,
    pub move_to: Option<(i32, i32)>,
}

pub open spec fn no_output() -> MoveOutput {
    MoveOutput {
        release_capture: false,
        toggle_maximize: false,
        unmaximize: false,
        capture: false,
        move_to: None,
    }
}

/// One frame of a title-bar drag. Fullscreen windows do not move; a double
/// click toggles maximisation; a drag restores a maximised window and moves
/// it with the pointer until the button is released.
pub open spec fn moved(state: MoveState, input: MoveInput) -> (MoveState, MoveOutput) {
    if input.fullscreen {
        (MoveState { start: None }, no_output())
    } else if input.double_clicked {
        (
            MoveState { start: None },
            MoveOutput { release_capture: state.start is Some, toggle_maximize: true, ..no_output() },
        )
    } else {
        let begins = drag_begins(input);
        let s1 = drag_start(state, input);
        let ends = input.drag_stopped || !input.primary_down;
        (
            MoveState {
                start: if ends {
                    None
                } else {
                    s1
                },
            },
            MoveOutput {
                release_capture: ends && s1 is Some,
                toggle_maximize: false,
                unmaximize: begins && input.maximized,
                capture: begins,
                move_to: drag_position(s1, input),
            },
        )
    }
}

/// The frame starts a drag where the system reports both positions.
pub open spec fn drag_begins(input: MoveInput) -> bool {
    input.drag_started && input.cursor is Some && input.origin is Some
}

/// The drag in progress after this frame's start, if any.
pub open spec fn drag_start(state: MoveState, input: MoveInput) -> Option<((i32, i32), (i32, i32))> {
    if drag_begins(input) {
        match (input.cursor, input.origin) {
            (Some(c), Some(o)) => Some((c, o)),
            _ => None,
        }
    } else {
        state.start
    }
}

/// Where the window goes while the button is held.
pub open spec fn drag_position(start: Option<((i32, i32), (i32, i32))>, input: MoveInput) -> Option<
    (i32, i32),
> {
    match (start, input.cursor) {
        (Some((start_cursor, origin)), Some(cursor)) => if input.primary_down {
            Some(dragged_to(origin, start_cursor, cursor))
        } else {
            None
        },
        _ => None,
    }
}

/// The pointer's travel since the drag started fits in `i32`.
pub open spec fn travel_fits(start: Option<((i32, i32), (i32, i32))>, input: MoveInput) -> bool {
    match (start, input.cursor) {
        (Some((start_cursor, _)), Some(cursor)) => in_i32(cursor.0 - start_cursor.0) && in_i32(
            cursor.1 - start_cursor.1,
        ),
        _ => true,
    }
}

impl MoveState {
    pub fn new() -> (s: Self)
        ensures
            s.start is None,
    {
        MoveState { start: None }
    }

    /// Advances the drag by one frame. The pointer's travel since the drag
    /// started must fit in `i32`.
    pub fn update(&mut self, input: MoveInput) -> (out: MoveOutput)
        requires
            !input.fullscreen && !input.double_clicked && input.primary_down ==> travel_fits(
                drag_start(*old(self), input),
                input,
            ),
        ensures
            (*final(self), out) == moved(*old(self), input),
    {
        if input.fullscreen {
            self.start = None;
            return MoveOutput {
                release_capture: false,
                toggle_maximize: false,
                unmaximize: false,
                capture: false,
                move_to: None,
            };
        }
        if input.double_clicked {
            let release = self.start.is_some();
            self.start = None;
            return MoveOutput {
                release_capture: release,
                toggle_maximize: true,
                unmaximize: false,
                capture: false,
                move_to: None,
            };
        }
        let mut out = MoveOutput {
            release_capture: false,
            toggle_maximize: false,
            unmaximize: false,
            capture: false,
            move_to: None,
        };
        if input.drag_started {
            match (input.cursor, input.origin) {
                (Some(cursor), Some(origin)) => {
                    out.unmaximize = input.maximized;
                    self.start = Some((cursor, origin));
                    out.capture = true;
                },
                _ => {},
            }
        }
        if input.primary_down {
            match (self.start, input.cursor) {
                (Some((start_cursor, origin)), Some(cursor)) => {
                    out.move_to = Some(move_target(origin, start_cursor, cursor));
                },
                _ => {},
            }
        }
        if input.drag_stopped || !input.primary_down {
            out.release_capture = self.start.is_some();
            self.start = None;
        }
        out
    }
}

/// A drag ends with the pointer capture released: after a frame whose button
/// is up, no drag is in progress.
pub proof fn lemma_drag_ends_on_release(state: MoveState, input: MoveInput)
    requires
        !input.primary_down,
    ensures
        moved(state, input).0.start is None,
{
}

} // verus!
