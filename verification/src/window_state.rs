//! The main window's remembered position, size and maximized state, and whether a saved
//! position is still on some monitor.
use vstd::prelude::*;

verus! {

/// File name of the saved window state inside the configuration directory.
pub const FILE: &'static str = "window.json";

/// Saved geometry of the main window.
#[derive(Debug, Clone, PartialEq)]
pub struct WindowState {
    pub x: i32,
    pub y: i32,
    pub width: u32,
    pub height: u32,
    pub maximized: bool,
}

/// A monitor's physical rectangle.
#[derive(Debug, Clone, Copy)]
pub struct Rect {
    pub x: i32,
    pub y: i32,
    pub w: u32,
    pub h: u32,
}

/// The point 32 pixels right of and below the window's top-left corner lies inside `m`.
pub open spec fn inside(state: WindowState, m: Rect) -> bool {
    let px = state.x + 32;
    let py = state.y + 32;
    m.x <= px && m.y <= py && px < m.x + m.w && py < m.y + m.h
}

/// The point 32 pixels into the window lies on some monitor, so restoring the position does
/// not put the window on a monitor that is gone.
pub fn position_visible(state: &WindowState, monitors: &[Rect]) -> (r: bool)
    ensures
        r == exists|i: int| 0 <= i < monitors@.len() && inside(*state, #[trigger] monitors@[i]),
{
    let px: i64 = state.x as i64 + 32;
    let py: i64 = state.y as i64 + 32;
    let mut i: usize = 0;
    while i < monitors.len()
        invariant
            i <= monitors@.len(),
            px == state.x + 32,
            py == state.y + 32,
            forall|j: int| 0 <= j < i ==> !inside(*state, #[trigger] monitors@[j]),
        decreases monitors@.len() - i,
    {
        let m = monitors[i];
        if px >= m.x as i64 && py >= m.y as i64 && px < m.x as i64 + m.w as i64 && py < m.y as i64
            + m.h as i64 {
            assert(inside(*state, monitors@[i as int]));
            return true;
        }
        i = i + 1;
    }
    false
}

/// The state to remember for a window with this geometry; `None` for a size under 200
/// pixels either way (a minimized window reports a zero size, which is not remembered).
pub fn captured(x: i32, y: i32, width: u32, height: u32, maximized: bool) -> (r: Option<
    WindowState,
>)
    ensures
        (width < 200 || height < 200) <==> r is None,
        r matches Some(s) ==> s == (WindowState { x, y, width, height, maximized }),
{
    if width < 200 || height < 200 {
        None
    } else {
        Some(WindowState { x, y, width, height, maximized })
    }
}

} // verus!
