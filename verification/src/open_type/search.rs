//! The binary-search triple that the table directory carries.

use vstd::prelude::*;

verus! {

/// The whole part of the binary logarithm of `n`, for `n` at least 1.
pub open spec fn floor_log2(n: nat) -> nat
    decreases n,
{
    if n <= 1 {
        0
    } else {
        1 + floor_log2(n / 2)
    }
}

/// Two to the power `e`.
pub open spec fn power_of_two(e: nat) -> nat
    decreases e,
{
    if e == 0 {
        1
    } else {
        2 * power_of_two((e - 1) as nat)
    }
}

/// `n` lies between the power of two that its logarithm names and the next.
pub proof fn lemma_floor_log2(n: nat)
    requires
        n >= 1,
    ensures
        power_of_two(floor_log2(n)) <= n < 2 * power_of_two(floor_log2(n)),
    decreases n,
{
    if n > 1 {
        lemma_floor_log2(n / 2);
    }
}

/// What a reader needs to search `n` records of 16 bytes by halving.
#[derive(Debug, Clone, Copy, PartialEq, Eq)]
pub struct SearchData {
    /// 16 times the greatest power of two that is at most `n`.
    pub search_range: u16,
    /// The binary logarithm of that power of two.
    pub entry_selector: u16,
    /// What is left of `16 * n` beyond `search_range`.
    pub range_shift: u16,
}

impl SearchData {
    /// The triple for `lenght` records. The count is at least 1, and at
    /// most 4095 so that 16 times it fits in 16 bits.
    pub fn for_length(lenght: u16) -> (data: Self)
        requires
            1 <= lenght <= 4095,
        ensures
            data.entry_selector == floor_log2(lenght as nat),
            data.search_range == power_of_two(floor_log2(lenght as nat)) * 16,
            data.range_shift == lenght * 16 - data.search_range,
            data.search_range <= lenght * 16 < 2 * data.search_range,
    {
        let mut entry_selector: u16 = 0;
        let mut power: u16 = 1;
        let mut rest: u16 = lenght;
        while rest > 1
            invariant
                1 <= rest <= lenght <= 4095,
                power == power_of_two(entry_selector as nat),
                power * rest <= lenght,
                floor_log2(lenght as nat) == entry_selector + floor_log2(rest as nat),
            decreases rest,
        {
            proof {
                lemma_power_of_two_grows(entry_selector as nat);
                assert(power * 2 <= power * rest) by (nonlinear_arith)
                    requires
                        rest >= 2,
                        power >= 0,
                ;
                assert((power * 2) * (rest / 2) <= power * rest) by (nonlinear_arith)
                    requires
                        (rest / 2) * 2 <= rest,
                        power >= 0,
                ;
            }
            rest = rest / 2;
            power = power * 2;
            entry_selector = entry_selector + 1;
        }
        proof {
            lemma_floor_log2(lenght as nat);
        }
        let search_range = power * 16;
        let range_shift = lenght * 16 - search_range;
        Self { search_range, entry_selector, range_shift }
    }
}

/// A power of two is greater than its exponent.
proof fn lemma_power_of_two_grows(e: nat)
    ensures
        power_of_two(e) > e,
    decreases e,
{
    if e > 0 {
        lemma_power_of_two_grows((e - 1) as nat);
    }
}

/// For every count of records from 1 to 4095, the search range is the
/// greatest power of two times 16 that is at most 16 times the count, and
/// the range shift is what is left.
pub proof fn law_search_data(n: nat)
    requires
        1 <= n <= 4095,
    ensures
        power_of_two(floor_log2(n)) * 16 <= n * 16 < 2 * (power_of_two(floor_log2(n)) * 16),
        n * 16 - power_of_two(floor_log2(n)) * 16 >= 0,
{
    lemma_floor_log2(n);
}

} // verus!
