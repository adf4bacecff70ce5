use vstd::prelude::*;

verus! {

/// The KRX price tick (minimum price increment) for a given price, in won.
pub open spec fn tick_size_spec(price: int) -> int {
    if price < 2_000 {
        1
    } else if price < 5_000 {
        5
    } else if price < 20_000 {
        10
    } else if price < 50_000 {
        50
    } else if price < 200_000 {
        100
    } else if price < 500_000 {
        500
    } else {
        1_000
    }
}

/// Returns the KRX tick size for `price`; prices at or below zero get a tick of 1.
pub fn krx_tick_size(price: i64) -> (tick: i64)
    ensures
        tick == tick_size_spec(price as int),
{
    if price <= 0 {
        return 1;
    }
    if price <= 1_999 {
        1
    } else if price <= 4_999 {
        5
    } else if price <= 19_999 {
        10
    } else if price <= 49_999 {
        50
    } else if price <= 199_999 {
        100
    } else if price <= 499_999 {
        500
    } else {
        1_000
    }
}

/// The tick size never decreases as the price rises.
pub proof fn lemma_tick_size_monotonic(p: int, q: int)
    requires
        p <= q,
    ensures
        tick_size_spec(p) <= tick_size_spec(q),
{
}

/// Every tick size is one of the seven KRX price units, and is positive.
pub proof fn lemma_tick_size_is_krx_unit(p: int)
    ensures
        tick_size_spec(p) > 0,
        tick_size_spec(p) == 1 || tick_size_spec(p) == 5 || tick_size_spec(p) == 10
            || tick_size_spec(p) == 50 || tick_size_spec(p) == 100 || tick_size_spec(p) == 500
            || tick_size_spec(p) == 1_000,
{
}

} // verus!
