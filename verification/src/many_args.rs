//! A function of many arguments, as on-chain programs call across
//! packages.

use vstd::prelude::*;

verus! {

/// The sum of the nine arguments, which must fit `u64`.
pub fn many_args(
    arg1: u64,
    arg2: u64,
    arg3: u64,
    arg4: u64,
    arg5: u64,
    arg6: u64,
    arg7: u64,
    arg8: u64,
    arg9: u64,
) -> (sum: u64)
    requires
        arg1 + arg2 + arg3 + arg4 + arg5 + arg6 + arg7 + arg8 + arg9 <= u64::MAX,
    ensures
        sum == arg1 + arg2 + arg3 + arg4 + arg5 + arg6 + arg7 + arg8 + arg9,
{
    arg1 + arg2 + arg3 + arg4 + arg5 + arg6 + arg7 + arg8 + arg9
}

} // verus!
