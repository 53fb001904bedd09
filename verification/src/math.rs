//! Powers of two.

use vstd::arithmetic::power2;
use vstd::prelude::*;

verus! {

/// `usize::is_power_of_two` is documented to return true exactly if its
/// argument is two to the power of some unsigned integer.
pub assume_specification[ usize::is_power_of_two ](x: usize) -> (r: bool)
    ensures
        r == power2::is_pow2(x as int),
;

/// `u32::is_power_of_two` is documented to return true exactly if its argument
/// is two to the power of some unsigned integer.
pub assume_specification[ u32::is_power_of_two ](x: u32) -> (r: bool)
    ensures
        r == power2::is_pow2(x as int),
;

/// `u16::is_power_of_two` is documented to return true exactly if its argument
/// is two to the power of some unsigned integer.
pub assume_specification[ u16::is_power_of_two ](x: u16) -> (r: bool)
    ensures
        r == power2::is_pow2(x as int),
;

} // verus!
