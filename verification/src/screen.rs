use vstd::prelude::*;
use crate::color::ARGBColor;
use crate::geom::Rect;

verus! {

/// A screen that shows nothing; it only knows its bounds.
#[derive(Clone, Copy, Debug)]
pub struct HeadlessScreen {
    pub bounds: Rect,
}

impl HeadlessScreen {
    pub fn init(rect: Rect) -> (s: HeadlessScreen)
        ensures
            s.bounds == rect,
    {
        HeadlessScreen { bounds: rect }
    }

    pub fn get_bounds(&self) -> (r: &Rect)
        ensures
            *r == self.bounds,
    {
        &self.bounds
    }
}

/// A window surface that draws nothing; it only knows its bounds.
#[derive(Clone, Copy, Debug)]
pub struct HeadlessSurface {
    pub bounds: Rect,
}

impl HeadlessSurface {
    pub fn init(rect: Rect) -> (s: HeadlessSurface)
        ensures
            s.bounds == rect,
    {
        HeadlessSurface { bounds: rect }
    }

    pub fn get_bounds(&self) -> (r: &Rect)
        ensures
            *r == self.bounds,
    {
        &self.bounds
    }

    /// Drawing onto a headless surface leaves no trace.
    pub fn fill_rect(&self, rect: &Rect, color: &ARGBColor) {
    }
}

/// The screen of the test server: a headless screen with the given bounds.
pub fn start_headless_screen(rect: Rect) -> (s: HeadlessScreen)
    ensures
        s.bounds == rect,
{
    HeadlessScreen::init(rect)
}

} // verus!
