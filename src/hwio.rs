//! Hardware access for compiled programs, in builds without hardware I/O
//! support: every operation is unavailable and reports -1.
use vstd::prelude::*;

verus! {

/// Unavailable here: reports -1.
pub fn cpu_cli() -> (r: i64)
    ensures
        r == -1,
{
    -1
}

/// Unavailable here: reports -1.
pub fn cpu_sti() -> (r: i64)
    ensures
        r == -1,
{
    -1
}

/// Unavailable here: reports -1.
pub fn cpu_hlt() -> (r: i64)
    ensures
        r == -1,
{
    -1
}

/// Unavailable here: reports -1.
pub fn cpu_nop() -> (r: i64)
    ensures
        r == -1,
{
    -1
}

/// Unavailable here: reports -1.
pub fn cpu_pause() -> (r: i64)
    ensures
        r == -1,
{
    -1
}

/// Unavailable here: reports -1.
pub fn port_read_byte(_p: u16) -> (r: i64)
    ensures
        r == -1,
{
    -1
}

/// Unavailable here: reports -1.
pub fn port_write_byte(_p: u16, _v: u8) -> (r: i64)
    ensures
        r == -1,
{
    -1
}

/// Unavailable here: reports -1.
pub fn port_read_word(_p: u16) -> (r: i64)
    ensures
        r == -1,
{
    -1
}

/// Unavailable here: reports -1.
pub fn port_write_word(_p: u16, _v: u16) -> (r: i64)
    ensures
        r == -1,
{
    -1
}

/// Unavailable here: reports -1.
pub fn mem_read_byte(_a: i64) -> (r: i64)
    ensures
        r == -1,
{
    -1
}

/// Unavailable here: reports -1.
pub fn mem_write_byte(_a: i64, _v: u8) -> (r: i64)
    ensures
        r == -1,
{
    -1
}

/// Unavailable here: reports -1.
pub fn mem_read_dword(_a: i64) -> (r: i64)
    ensures
        r == -1,
{
    -1
}

/// Unavailable here: reports -1.
pub fn mem_write_dword(_a: i64, _v: u32) -> (r: i64)
    ensures
        r == -1,
{
    -1
}

/// Unavailable here: reports -1.
pub fn mem_read_qword(_a: i64) -> (r: i64)
    ensures
        r == -1,
{
    -1
}

/// Unavailable here: reports -1.
pub fn mem_write_qword(_a: i64, _v: i64) -> (r: i64)
    ensures
        r == -1,
{
    -1
}

/// Unavailable here: reports -1.
pub fn cpu_get_cr0() -> (r: i64)
    ensures
        r == -1,
{
    -1
}

/// Unavailable here: reports -1.
pub fn cpu_set_cr0(_v: u64) -> (r: i64)
    ensures
        r == -1,
{
    -1
}

/// Unavailable here: reports -1.
pub fn cpu_get_cr3() -> (r: i64)
    ensures
        r == -1,
{
    -1
}

/// Unavailable here: reports -1.
pub fn cpu_set_cr3(_v: u64) -> (r: i64)
    ensures
        r == -1,
{
    -1
}

/// Unavailable here: reports -1.
pub fn cpu_get_rflags() -> (r: i64)
    ensures
        r == -1,
{
    -1
}

/// Unavailable here: reports -1.
pub fn cpu_set_rflags(_v: u64) -> (r: i64)
    ensures
        r == -1,
{
    -1
}

} // verus!
