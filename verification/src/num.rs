use vstd::prelude::*;
use vstd::arithmetic::power2::is_pow2;

verus! {

/// `usize::is_power_of_two` of the standard library, which is documented to
/// return `true` exactly when the number is `2^k` for some `k`. Believed, not
/// proved: the answer is stated as the recursive definition of a power of two.
pub assume_specification[ usize::is_power_of_two ](x: usize) -> (r: bool)
    ensures
        r == is_pow2(x as int),
;

} // verus!
