//! The four screen corners and their pixel regions.

use vstd::prelude::*;

verus! {

/// Pixel slack around the exact corner coordinate.
pub const TOLERANCE: i32 = 1;

/// One of the four screen extremities.
#[derive(Clone, Copy, Debug, PartialEq, Eq, Structural)]
pub enum Corner {
    TopLeft,
    TopRight,
    BottomLeft,
    BottomRight,
}

/// Whether pixel `(x, y)` lies in the region of corner `c` on a screen of
/// `width` by `height` pixels.
pub open spec fn in_region(c: Corner, x: int, y: int, width: int, height: int) -> bool {
    match c {
        Corner::TopLeft => x <= TOLERANCE && y <= TOLERANCE,
        Corner::TopRight => x >= width - 1 - TOLERANCE && y <= TOLERANCE,
        Corner::BottomLeft => x <= TOLERANCE && y >= height - 1 - TOLERANCE,
        Corner::BottomRight => x >= width - 1 - TOLERANCE && y >= height - 1 - TOLERANCE,
    }
}

impl Corner {
    /// Executable region test; the arithmetic is widened so that no screen size overflows.
    pub fn contains(self, x: i32, y: i32, width: i32, height: i32) -> (b: bool)
        ensures
            b == in_region(self, x as int, y as int, width as int, height as int),
    {
        let tol: i64 = TOLERANCE as i64;
        let px: i64 = x as i64;
        let py: i64 = y as i64;
        let right: i64 = width as i64 - 1 - tol;
        let bottom: i64 = height as i64 - 1 - tol;
        match self {
            Corner::TopLeft => px <= tol && py <= tol,
            Corner::TopRight => px >= right && py <= tol,
            Corner::BottomLeft => px <= tol && py >= bottom,
            Corner::BottomRight => px >= right && py >= bottom,
        }
    }
}

} // verus!
