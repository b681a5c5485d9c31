//! The fee policy: a transfer between two unexempt accounts is charged
//! seven percent of the amount, truncated; a transfer touching an exempt
//! account is free.

use vstd::prelude::*;

verus! {

/// The fee owed on a transfer of `amount`: zero when either party is
/// exempt, else seven hundredths of the amount, truncated.
pub open spec fn fee_spec(amount: u128, sender_exempt: bool, recipient_exempt: bool) -> int {
    if sender_exempt || recipient_exempt {
        0
    } else {
        (7 * (amount as int)) / 100
    }
}

/// Truncated seven percent split over quotient and remainder by one
/// hundred, so that the product never outgrows 128 bits.
proof fn lemma_fee_split(a: int)
    requires
        0 <= a,
    ensures
        7 * (a / 100) + (7 * (a % 100)) / 100 == (7 * a) / 100,
        (7 * a) / 100 <= a,
{
    let q = a / 100;
    let r = a % 100;
    vstd::arithmetic::div_mod::lemma_fundamental_div_mod(a, 100);
    assert(7 * a == 7 * r + (7 * q) * 100);
    vstd::arithmetic::div_mod::lemma_hoist_over_denominator(7 * r, 7 * q, 100nat);
    vstd::arithmetic::div_mod::lemma_div_is_ordered(7 * a, 100 * a, 100);
    vstd::arithmetic::div_mod::lemma_div_multiples_vanish(a, 100);
}

/// Compute the fee the policy owes; never more than the amount itself.
pub fn fee_for(amount: u128, sender_exempt: bool, recipient_exempt: bool) -> (r: u128)
    ensures
        r == fee_spec(amount, sender_exempt, recipient_exempt),
        r <= amount,
{
    if sender_exempt || recipient_exempt {
        0
    } else {
        let q = amount / 100;
        let rem = amount % 100;
        proof {
            lemma_fee_split(amount as int);
        }
        7 * q + (7 * rem) / 100
    }
}

} // verus!
