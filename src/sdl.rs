//! Graphics for compiled programs, in builds without a graphics library:
//! every operation is unavailable and reports -1.
use vstd::prelude::*;

verus! {

/// Unavailable here: reports -1.
pub fn init() -> (r: i64)
    ensures
        r == -1,
{
    -1
}

/// Unavailable here: reports -1.
pub fn create_window(_w: i32, _h: i32, _t: i64) -> (r: i64)
    ensures
        r == -1,
{
    -1
}

/// Unavailable here: reports -1.
pub fn draw_pixel(_x: i32, _y: i32, _r: u8, _g: u8, _b: u8) -> (r: i64)
    ensures
        r == -1,
{
    -1
}

/// Unavailable here: reports -1.
pub fn draw_rect(_x: i32, _y: i32, _w: i32, _h: i32, _r: u8, _g: u8, _b: u8) -> (r: i64)
    ensures
        r == -1,
{
    -1
}

/// Unavailable here: reports -1.
pub fn clear(_r: u8, _g: u8, _b: u8) -> (r: i64)
    ensures
        r == -1,
{
    -1
}

/// Unavailable here: reports -1.
pub fn present() -> (r: i64)
    ensures
        r == -1,
{
    -1
}

/// Unavailable here: reports -1.
pub fn destroy_window() -> (r: i64)
    ensures
        r == -1,
{
    -1
}

/// Unavailable here: reports -1.
pub fn quit() -> (r: i64)
    ensures
        r == -1,
{
    -1
}

/// A window description: its title and size in pixels.
pub struct Window {
    pub title: String,
    pub width: u32,
    pub height: u32,
}

impl Window {
    /// A window with the given title and size.
    pub fn new(title: &str, width: u32, height: u32) -> (r: Window)
        ensures
            r.title@ == title@,
            r.width == width,
            r.height == height,
    {
        Window { title: title.to_owned(), width, height }
    }
}

} // verus!
