//! Operating-system calls for compiled programs, on systems where they are
//! not available: each reports failure (-1; `sleep` reports 0 seconds left).
use vstd::prelude::*;

verus! {

/// Unavailable here: reports -1.
pub fn fork() -> (r: i64)
    ensures
        r == -1,
{
    -1
}

/// Unavailable here: reports -1.
pub fn exit(_c: i32) -> (r: i64)
    ensures
        r == -1,
{
    -1
}

/// Unavailable here: reports -1.
pub fn wait(_p: i64) -> (r: i64)
    ensures
        r == -1,
{
    -1
}

/// Unavailable here: reports -1.
pub fn getpid() -> (r: i64)
    ensures
        r == -1,
{
    -1
}

/// Unavailable here: reports -1.
pub fn kill(_p: i64, _s: i32) -> (r: i64)
    ensures
        r == -1,
{
    -1
}

/// Unavailable here: reports -1.
pub fn open(_p: i64, _f: i32) -> (r: i64)
    ensures
        r == -1,
{
    -1
}

/// Unavailable here: reports -1.
pub fn close(_f: i32) -> (r: i64)
    ensures
        r == -1,
{
    -1
}

/// Unavailable here: reports -1.
pub fn read(_f: i32, _b: i64, _c: usize) -> (r: i64)
    ensures
        r == -1,
{
    -1
}

/// Unavailable here: reports -1.
pub fn write(_f: i32, _b: i64, _c: usize) -> (r: i64)
    ensures
        r == -1,
{
    -1
}

/// Unavailable here: reports -1.
pub fn pipe(_r: i64, _w: i64) -> (r: i64)
    ensures
        r == -1,
{
    -1
}

/// Unavailable here: reports -1.
pub fn dup(_o: i32) -> (r: i64)
    ensures
        r == -1,
{
    -1
}

/// Unavailable here: reports -1.
pub fn dup2(_o: i32, _n: i32) -> (r: i64)
    ensures
        r == -1,
{
    -1
}

/// Unavailable here: reports 0 seconds left.
pub fn sleep(_s: u32) -> (r: u32)
    ensures
        r == 0,
{
    0
}

/// Unavailable here: reports -1.
pub fn usleep(_u: u32) -> (r: i32)
    ensures
        r == -1,
{
    -1
}

/// Unavailable here: reports -1.
pub fn time_now() -> (r: i64)
    ensures
        r == -1,
{
    -1
}

/// Unavailable here: reports -1.
pub fn system(_c: i64) -> (r: i32)
    ensures
        r == -1,
{
    -1
}

/// Unavailable here: reports -1.
pub fn getenv(_n: i64) -> (r: i64)
    ensures
        r == -1,
{
    -1
}

/// Unavailable here: reports -1.
pub fn getcwd(_b: i64, _s: usize) -> (r: i64)
    ensures
        r == -1,
{
    -1
}

/// Unavailable here: reports -1.
pub fn chdir(_p: i64) -> (r: i64)
    ensures
        r == -1,
{
    -1
}

} // verus!
