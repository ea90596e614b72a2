use vstd::prelude::*;

verus! {

/// `n` is `2^k` for some `k >= 0`.
pub open spec fn is_power_of_two(n: nat) -> bool
    decreases n,
{
    if n == 1 {
        true
    } else if n < 2 || n % 2 != 0 {
        false
    } else {
        is_power_of_two(n / 2)
    }
}

/// Whether `n` is a power of two (zero is not).
pub fn power_of_two(n: usize) -> (b: bool)
    ensures
        b == is_power_of_two(n as nat),
{
    let mut x = n;
    while x >= 2 && x % 2 == 0
        invariant
            is_power_of_two(x as nat) == is_power_of_two(n as nat),
        decreases x,
    {
        x = x / 2;
    }
    x == 1
}

} // verus!
