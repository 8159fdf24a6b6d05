//! Error codes of the operating system.

use crate::error::IoFault;
use vstd::prelude::*;

verus! {

/// The code of an operation that was aborted.
pub const ERROR_OPERATION_ABORTED_CODE: u32 = 995;

/// The code of a wait that expired.
pub const WAIT_TIMEOUT_ERROR_CODE: u32 = 258;

/// The result code of a refused access.
pub const ACCESS_DENIED_RESULT: u32 = 0x8007_0005;

/// The system error code inside a result code: the low half of the codes that
/// wrap one, any other code as it is.
pub open spec fn system_code(hresult: u32) -> u32 {
    if hresult / 65536 == 0x8007 {
        (hresult % 65536) as u32
    } else {
        hresult
    }
}

/// The two's complement reading of a 32-bit pattern.
pub open spec fn signed32(x: u32) -> i32 {
    if x < 0x8000_0000 {
        x as i32
    } else {
        (x - 0x1_0000_0000) as i32
    }
}

/// The failure that a result code stands for.
pub open spec fn system_fault(hresult: u32) -> IoFault {
    IoFault::Os(signed32(system_code(hresult)))
}

/// The system error code inside a result code.
pub fn win32_code(hresult: u32) -> (r: u32)
    ensures
        r == system_code(hresult),
{
    assert((hresult & 0xFFFF_0000u32) == 0x8007_0000u32 <==> hresult / 65536 == 0x8007)
        by (bit_vector);
    assert(hresult & 0xFFFFu32 == hresult % 65536) by (bit_vector);
    if (hresult & 0xFFFF_0000u32) == 0x8007_0000u32 {
        hresult & 0xFFFFu32
    } else {
        hresult
    }
}

/// The failure that a result code stands for: the bare system code where the
/// result code wraps one.
pub fn system_error(hresult: u32) -> (r: IoFault)
    ensures
        r == system_fault(hresult),
{
    let code: u32 = win32_code(hresult);
    IoFault::Os(
        if code < 0x8000_0000 {
            code as i32
        } else {
            (code as i64 - 0x1_0000_0000) as i32
        },
    )
}

/// A result code that wraps a system code gives it back, and a bare one is kept.
pub proof fn law_wrapped_codes_come_back(code: u16, bare: u32)
    ensures
        system_code((0x8007_0000 + code) as u32) == code,
        bare < 0x8007_0000 || bare > 0x8007_FFFF ==> system_code(bare) == bare,
{
}

/// A code reads as a number with a sign: the upper half of the codes is
/// negative, and the pattern stays the same.
pub proof fn law_signs_keep_the_pattern(x: u32)
    ensures
        signed32(x) as int == x as int || signed32(x) as int == x as int - 0x1_0000_0000,
        signed32(x) < 0 <==> x >= 0x8000_0000,
{
}

} // verus!
