use vstd::prelude::*;

verus! {

/// Largest numerator or denominator a rate parsed from the feed may have.
/// The feed writes rates as plain decimals; both the digits read and the
/// power of ten they are scaled by are kept under this bound, so that
/// rebasing two rates onto each other never overflows `u128`.
pub const RATE_PART_MAX: u128 = 1000000000000000000;

/// An exchange rate as an exact rational number `num / den`.
///
/// The feed publishes decimals such as `1.0956`; parsing turns them into
/// `num = 10956`, `den = 10000`. Rebasing a day onto another currency
/// divides two such values, which stays exact in this representation.
#[derive(Clone, Copy, Debug, PartialEq, Eq, Structural)]
pub struct Rate {
    pub num: u128,
    pub den: u128,
}

impl Rate {
    /// Every rate has a positive denominator.
    pub open spec fn wf(self) -> bool {
        self.den >= 1
    }

    /// A rate as the feed parser produces it: both parts small enough
    /// that conversion products fit in `u128`.
    pub open spec fn bounded(self) -> bool {
        &&& self.wf()
        &&& self.num <= RATE_PART_MAX
        &&& self.den <= RATE_PART_MAX
    }

    /// The rational value one, the rate of the feed's base currency.
    pub fn one() -> (r: Rate)
        ensures
            r == spec_rate_one(),
    {
        Rate { num: 1, den: 1 }
    }
}

pub open spec fn spec_rate_one() -> Rate {
    Rate { num: 1, den: 1 }
}

/// Two rates denote the same rational number.
pub open spec fn rate_eq(a: Rate, b: Rate) -> bool {
    a.num * b.den == b.num * a.den
}

/// Rebasing a day onto a currency divides each slot by the base rate
/// `rx`; the base currency's own slot becomes `rx / rx`, which is
/// exactly one.
pub proof fn lemma_base_slot_unit(rx: Rate)
    requires
        rx.bounded(),
        rx.num > 0,
    ensures
        rate_eq(
            Rate { num: (rx.num * rx.den) as u128, den: (rx.den * rx.num) as u128 },
            spec_rate_one(),
        ),
{
    assert(rx.num * rx.den <= RATE_PART_MAX * RATE_PART_MAX && rx.den * rx.num <= RATE_PART_MAX
        * RATE_PART_MAX && rx.num * rx.den == rx.den * rx.num) by (nonlinear_arith)
        requires
            rx.num <= RATE_PART_MAX,
            rx.den <= RATE_PART_MAX,
    ;
}

/// Rebasing a day onto a currency with present nonzero rate `rx` turns
/// a present slot `ry` into exactly the quotient `ry / rx`: the result
/// `q` satisfies `q * rx == ry` as rational numbers.
pub proof fn lemma_converted_slot_quotient(ry: Rate, rx: Rate)
    requires
        ry.bounded(),
        rx.bounded(),
        rx.num > 0,
    ensures
        ({
            let q = Rate { num: (ry.num * rx.den) as u128, den: (ry.den * rx.num) as u128 };
            (q.num * rx.num) * ry.den == ry.num * (q.den * rx.den)
        }),
{
    assert(ry.num * rx.den <= RATE_PART_MAX * RATE_PART_MAX && ry.den * rx.num <= RATE_PART_MAX
        * RATE_PART_MAX) by (nonlinear_arith)
        requires
            ry.num <= RATE_PART_MAX,
            rx.den <= RATE_PART_MAX,
            ry.den <= RATE_PART_MAX,
            rx.num <= RATE_PART_MAX,
    ;
    let q = Rate { num: (ry.num * rx.den) as u128, den: (ry.den * rx.num) as u128 };
    assert(((ry.num * rx.den) * rx.num) * ry.den == ry.num * ((ry.den * rx.num) * rx.den))
        by (nonlinear_arith);
}

} // verus!
