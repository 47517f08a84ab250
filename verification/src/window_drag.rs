//! Moving and resizing the frameless main window from a low-level mouse
//! hook: a press inside the window arms the gesture; a press within a few
//! pixels of an edge or corner resizes along it, anywhere else drags. The
//! window only follows once the pointer has moved past a threshold, so a
//! plain click on a button stays a click. Resizing never goes below the
//! minimum size; resizing on the west or north edge moves the window so
//! that the opposite edge stays put.
//!
//! The hook itself (installing it, reading the pointer, moving the window)
//! is the shell's; this module holds its state and decides what each mouse
//! message asks for.

use vstd::prelude::*;

verus! {

/// How far (in physical pixels) the pointer must move before the window
/// follows: a click that wobbles less stays a click.
pub const DRAG_THRESHOLD_PX: i64 = 10;
/// How close (in physical pixels) to an edge a press starts a resize.
pub const EDGE_HIT_PX: i64 = 8;

/// Edge bits: east, south, west, north.
pub const EDGE_E: u8 = 1;
pub const EDGE_S: u8 = 2;
pub const EDGE_W: u8 = 4;
pub const EDGE_N: u8 = 8;

/// A window rectangle in screen coordinates (physical pixels).
#[derive(Debug, Clone, Copy, PartialEq, Eq, Structural)]
pub struct WinRect {
    pub left: i32,
    pub top: i32,
    pub right: i32,
    pub bottom: i32,
}

pub open spec fn abs(x: int) -> int {
    if x < 0 {
        -x
    } else {
        x
    }
}

pub open spec fn near(a: int, b: int) -> bool {
    abs(a - b) <= EDGE_HIT_PX
}

/// The edges a press at `(x, y)` is near, as bits (0: inside, a drag).
pub open spec fn edge_bits(x: int, y: int, r: WinRect) -> u8 {
    ((if near(x, r.left as int) { EDGE_W } else { 0u8 }) | (if near(r.right as int, x) {
        EDGE_E
    } else {
        0u8
    }) | (if near(y, r.top as int) { EDGE_N } else { 0u8 }) | (if near(r.bottom as int, y) {
        EDGE_S
    } else {
        0u8
    })) as u8
}

fn abs_diff_within(a: i32, b: i32, limit: i64) -> (r: bool)
    ensures
        r == (abs(a - b) <= limit),
{
    let d = (a as i64) - (b as i64);
    if d < 0 {
        -d <= limit
    } else {
        d <= limit
    }
}

/// The edges a press at `(x, y)` is near (see [`edge_bits`]).
pub fn hit_edge(x: i32, y: i32, r: &WinRect) -> (bits: u8)
    ensures
        bits == edge_bits(x as int, y as int, *r),
{
    let w: u8 = if abs_diff_within(x, r.left, EDGE_HIT_PX) { EDGE_W } else { 0 };
    let e: u8 = if abs_diff_within(r.right, x, EDGE_HIT_PX) { EDGE_E } else { 0 };
    let n: u8 = if abs_diff_within(y, r.top, EDGE_HIT_PX) { EDGE_N } else { 0 };
    let s: u8 = if abs_diff_within(r.bottom, y, EDGE_HIT_PX) { EDGE_S } else { 0 };
    w | e | n | s
}

/// The window's position and size after a resize gesture along `bits` by
/// `(dx, dy)` from `base`: the east and south edges follow the pointer, the
/// west and north edges too with the window moved so the opposite edge
/// stays; neither side goes under its minimum.
pub open spec fn resized(bits: u8, base: (int, int, int, int), min_w: int, min_h: int, dx: int, dy: int) -> (int, int, int, int) {
    let (x0, y0, w0, h0) = base;
    let w1 = if bits & EDGE_E != 0 {
        if w0 + dx > min_w { w0 + dx } else { min_w }
    } else {
        w0
    };
    let ww = if w0 - dx > min_w { w0 - dx } else { min_w };
    let (x, w) = if bits & EDGE_W != 0 {
        (x0 + (w0 - ww), ww)
    } else {
        (x0, w1)
    };
    let h1 = if bits & EDGE_S != 0 {
        if h0 + dy > min_h { h0 + dy } else { min_h }
    } else {
        h0
    };
    let hh = if h0 - dy > min_h { h0 - dy } else { min_h };
    let (y, h) = if bits & EDGE_N != 0 {
        (y0 + (h0 - hh), hh)
    } else {
        (y0, h1)
    };
    (x, y, w, h)
}

/// What a mouse message asks of the window.
#[derive(Debug, Clone, Copy, PartialEq, Eq, Structural)]
pub enum DragAction {
    /// Nothing.
    Stay,
    /// Move the window's top-left corner here, size unchanged.
    MoveTo { x: i64, y: i64 },
    /// Place and size the window.
    Place { x: i64, y: i64, w: i64, h: i64 },
}

/// The hook's state between mouse messages.
#[derive(Debug, Clone, Copy, PartialEq, Eq, Structural)]
pub struct DragState {
    /// The left button went down on the window and is still down.
    pub armed: bool,
    /// Where the press happened.
    pub start_x: i32,
    pub start_y: i32,
    /// The window's rectangle at the press (position and size).
    pub win_x: i32,
    pub win_y: i32,
    pub win_w: i64,
    pub win_h: i64,
    /// The edges being resized; 0 drags.
    pub edges: u8,
    /// The smallest size a resize may give, in physical pixels.
    pub min_w: i32,
    pub min_h: i32,
}

/// The window follows only once the pointer moved past the threshold on
/// either axis.
pub open spec fn past_threshold(dx: int, dy: int) -> bool {
    abs(dx) > DRAG_THRESHOLD_PX || abs(dy) > DRAG_THRESHOLD_PX
}

/// What a pointer move to `(x, y)` asks for in state `s`.
pub open spec fn move_action(s: DragState, x: int, y: int) -> DragAction {
    let dx = x - s.start_x;
    let dy = y - s.start_y;
    if !s.armed || !past_threshold(dx, dy) {
        DragAction::Stay
    } else if s.edges == 0 {
        DragAction::MoveTo { x: (s.win_x + dx) as i64, y: (s.win_y + dy) as i64 }
    } else {
        let r = resized(
            s.edges,
            (s.win_x as int, s.win_y as int, s.win_w as int, s.win_h as int),
            s.min_w as int,
            s.min_h as int,
            dx,
            dy,
        );
        DragAction::Place { x: r.0 as i64, y: r.1 as i64, w: r.2 as i64, h: r.3 as i64 }
    }
}

fn max_i64(a: i64, b: i64) -> (r: i64)
    ensures
        r == (if a > b { a } else { b }),
{
    if a > b {
        a
    } else {
        b
    }
}

impl DragState {
    /// The remembered size is that of a rectangle with `i32` corners.
    pub open spec fn wf(&self) -> bool {
        -0x1_0000_0000 <= self.win_w <= 0x1_0000_0000 && -0x1_0000_0000 <= self.win_h
            <= 0x1_0000_0000
    }

    /// Nothing pressed, with the given minimum size (the logical minimum
    /// times the window's scale, rounded by the shell).
    pub fn new(min_w: i32, min_h: i32) -> (s: DragState)
        ensures
            s.wf(),
            !s.armed,
            s.edges == 0,
            s.min_w == min_w,
            s.min_h == min_h,
    {
        DragState {
            armed: false,
            start_x: 0,
            start_y: 0,
            win_x: 0,
            win_y: 0,
            win_w: 0,
            win_h: 0,
            edges: 0,
            min_w,
            min_h,
        }
    }

    /// The left button went down at `(x, y)`. Only a press on the main
    /// window (or one of its children) arms the gesture; the window's
    /// rectangle, when it could be read, is remembered, and the press
    /// resizes along the edges it is near (measured against the zero
    /// rectangle when it could not be read), else drags.
    pub fn button_down(&mut self, x: i32, y: i32, on_window: bool, rect: Option<WinRect>)
        requires
            old(self).wf(),
        ensures
            final(self).wf(),
            !on_window ==> *final(self) == *old(self),
            on_window ==> {
                let r = match rect {
                    Some(r) => r,
                    None => WinRect { left: 0, top: 0, right: 0, bottom: 0 },
                };
                &&& final(self).armed
                &&& final(self).start_x == x
                &&& final(self).start_y == y
                &&& final(self).edges == edge_bits(x as int, y as int, r)
                &&& final(self).min_w == old(self).min_w
                &&& final(self).min_h == old(self).min_h
                &&& match rect {
                    Some(r) => final(self).win_x == r.left && final(self).win_y == r.top
                        && final(self).win_w == r.right - r.left && final(self).win_h == r.bottom
                        - r.top,
                    None => final(self).win_x == old(self).win_x && final(self).win_y == old(
                        self,
                    ).win_y && final(self).win_w == old(self).win_w && final(self).win_h == old(
                        self,
                    ).win_h,
                }
            },
    {
        if !on_window {
            return;
        }
        self.armed = true;
        self.start_x = x;
        self.start_y = y;
        let r = match rect {
            Some(r) => {
                self.win_x = r.left;
                self.win_y = r.top;
                self.win_w = r.right as i64 - r.left as i64;
                self.win_h = r.bottom as i64 - r.top as i64;
                r
            },
            None => WinRect { left: 0, top: 0, right: 0, bottom: 0 },
        };
        self.edges = hit_edge(x, y, &r);
    }

    /// The pointer moved to `(x, y)` (see [`move_action`]).
    pub fn pointer_move(&self, x: i32, y: i32) -> (a: DragAction)
        requires
            self.wf(),
        ensures
            a == move_action(*self, x as int, y as int),
    {
        let dx = (x as i64) - (self.start_x as i64);
        let dy = (y as i64) - (self.start_y as i64);
        let far = dx < -DRAG_THRESHOLD_PX || dx > DRAG_THRESHOLD_PX || dy < -DRAG_THRESHOLD_PX || dy
            > DRAG_THRESHOLD_PX;
        if !self.armed || !far {
            return DragAction::Stay;
        }
        if self.edges == 0 {
            return DragAction::MoveTo { x: self.win_x as i64 + dx, y: self.win_y as i64 + dy };
        }
        let x0 = self.win_x as i64;
        let y0 = self.win_y as i64;
        let w0 = self.win_w;
        let h0 = self.win_h;
        let min_w = self.min_w as i64;
        let min_h = self.min_h as i64;
        let mut nx = x0;
        let mut ny = y0;
        let mut nw = w0;
        let mut nh = h0;
        if self.edges & EDGE_E != 0 {
            nw = max_i64(w0 + dx, min_w);
        }
        if self.edges & EDGE_W != 0 {
            let w = max_i64(w0 - dx, min_w);
            nx = x0 + (w0 - w);
            nw = w;
        }
        if self.edges & EDGE_S != 0 {
            nh = max_i64(h0 + dy, min_h);
        }
        if self.edges & EDGE_N != 0 {
            let h = max_i64(h0 - dy, min_h);
            ny = y0 + (h0 - h);
            nh = h;
        }
        DragAction::Place { x: nx, y: ny, w: nw, h: nh }
    }

    /// The left button went up: the gesture is over.
    pub fn button_up(&mut self)
        requires
            old(self).wf(),
        ensures
            final(self).wf(),
            !final(self).armed,
            final(self).edges == 0,
            final(self).min_w == old(self).min_w,
            final(self).min_h == old(self).min_h,
    {
        self.armed = false;
        self.edges = 0;
    }
}

/// A press that moves less than the threshold on both axes is a click: the
/// window stays where it is.
pub proof fn lemma_click_stays(s: DragState, x: int, y: int)
    requires
        abs(x - s.start_x) <= DRAG_THRESHOLD_PX,
        abs(y - s.start_y) <= DRAG_THRESHOLD_PX,
    ensures
        move_action(s, x, y) == DragAction::Stay,
{
}

/// Resizing along the west (north) edge keeps the east (south) edge where
/// it was, and a side being resized never goes below its minimum.
pub proof fn lemma_resize_keeps_opposite_edge_and_minimum(
    bits: u8,
    base: (int, int, int, int),
    min_w: int,
    min_h: int,
    dx: int,
    dy: int,
)
    ensures
        ({
            let r = resized(bits, base, min_w, min_h, dx, dy);
            &&& bits & EDGE_W != 0 ==> r.0 + r.2 == base.0 + base.2
            &&& bits & EDGE_N != 0 ==> r.1 + r.3 == base.1 + base.3
            &&& (bits & EDGE_W != 0 || bits & EDGE_E != 0) ==> r.2 >= min_w
            &&& (bits & EDGE_N != 0 || bits & EDGE_S != 0) ==> r.3 >= min_h
            &&& bits & (EDGE_E | EDGE_W) == 0 ==> r.0 == base.0 && r.2 == base.2
            &&& bits & (EDGE_N | EDGE_S) == 0 ==> r.1 == base.1 && r.3 == base.3
        }),
{
    assert(bits & (EDGE_E | EDGE_W) == 0 ==> bits & EDGE_E == 0 && bits & EDGE_W == 0) by (bit_vector);
    assert(bits & (EDGE_N | EDGE_S) == 0 ==> bits & EDGE_N == 0 && bits & EDGE_S == 0) by (bit_vector);
}

} // verus!
