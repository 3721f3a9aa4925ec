//! Decimal decomposition used to display numbers in the game world.

use vstd::prelude::*;

verus! {

/// The digits of `n`, lowest first; zero has no digits.
pub open spec fn spec_decimals(n: nat) -> Seq<usize>
    decreases n,
{
    if n == 0 {
        Seq::empty()
    } else {
        seq![(n % 10) as usize] + spec_decimals(n / 10)
    }
}

/// The right-to-left decimal digits of `number`.
pub fn decimals(number: i32) -> (r: Vec<usize>)
    requires
        number >= 0,
    ensures
        r@ == spec_decimals(number as nat),
{
    let mut digits: Vec<usize> = Vec::new();
    let mut current = number;
    while current != 0
        invariant
            0 <= current <= number,
            spec_decimals(number as nat) == digits@ + spec_decimals(current as nat),
        decreases current,
    {
        let ghost pre = digits@;
        let digit = current % 10;
        digits.push(digit as usize);
        proof {
            assert(spec_decimals(current as nat) == seq![(current as nat % 10) as usize]
                + spec_decimals(current as nat / 10));
            assert(pre + spec_decimals(current as nat) =~= digits@ + spec_decimals(
                (current / 10) as nat,
            ));
        }
        current = current / 10;
    }
    proof {
        assert(digits@ + spec_decimals(0nat) =~= digits@);
    }
    digits
}

} // verus!
