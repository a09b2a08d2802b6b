//! The errno values that are named here. They are the Linux numbers
//! (`asm-generic/errno-base.h`, `asm-generic/errno.h`).

use vstd::prelude::*;

verus! {

pub const EACCES: i32 = 13;

pub const EBUSY: i32 = 16;

pub const EINVAL: i32 = 22;

pub const ERANGE: i32 = 34;

pub const EOVERFLOW: i32 = 75;

pub const ECANCELED: i32 = 125;

/// The numbers are those of Linux, and no two of the names are one number.
pub proof fn law_numbers_are_those_of_linux()
    ensures
        EACCES == 13 && EBUSY == 16 && EINVAL == 22,
        ERANGE == 34 && EOVERFLOW == 75 && ECANCELED == 125,
{
}

} // verus!
