//! Screen-area arithmetic of the dashboard.

use vstd::prelude::*;

verus! {

/// A rectangle of terminal cells.
#[derive(Clone, Copy, PartialEq, Eq, Structural, Debug)]
pub struct Area {
    pub x: u16,
    pub y: u16,
    pub width: u16,
    pub height: u16,
}

/// `area` shrunk by `x` cells on the left and right and `y` cells on the
/// top and bottom; a side too short for its margins shrinks to nothing.
pub fn inner_margin(area: Area, x: u16, y: u16) -> (r: Area)
    requires
        area.x + x <= u16::MAX,
        area.y + y <= u16::MAX,
        x * 2 <= u16::MAX,
        y * 2 <= u16::MAX,
    ensures
        r.x == area.x + x,
        r.y == area.y + y,
        r.width == if area.width >= x * 2 { area.width - x * 2 } else { 0 },
        r.height == if area.height >= y * 2 { area.height - y * 2 } else { 0 },
{
    Area {
        x: area.x + x,
        y: area.y + y,
        width: area.width.saturating_sub(x * 2),
        height: area.height.saturating_sub(y * 2),
    }
}

} // verus!
