use vstd::prelude::*;

verus! {

/// Widens a `u32` to a `usize` without loss.
pub fn u32_to_usize(from: u32) -> (to: usize)
    ensures
        to as int == from as int,
{
    from as usize
}

/// The value stays the same, so different numbers stay different and in order.
pub proof fn law_widening_keeps_values(one: u32, other: u32, first: usize, second: usize)
    requires
        call_ensures(u32_to_usize, (one,), first),
        call_ensures(u32_to_usize, (other,), second),
    ensures
        first == one,
        first - second == one - other,
{
}

} // verus!
