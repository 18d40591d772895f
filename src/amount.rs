use alloy::primitives::{U256, U512};
use vstd::prelude::*;

verus! {

/// 2^64, the weight step between two consecutive limbs.
pub open spec fn limb_base() -> nat {
    0x1_0000_0000_0000_0000
}

/// 2^256: every `Amount` is below it.
pub open spec fn amount_bound() -> nat {
    limb_base() * (limb_base() * (limb_base() * limb_base()))
}

/// The number written by four little-endian base-2^64 digits.
pub open spec fn digits_value(l0: nat, l1: nat, l2: nat, l3: nat) -> nat {
    l0 + limb_base() * (l1 + limb_base() * (l2 + limb_base() * l3))
}

proof fn lemma_digit_step(b: nat, x: nat, y: nat, k: nat)
    requires
        x < b,
        y < k,
    ensures
        x + b * y < b * k,
{
    assert(b * y <= b * (k - 1)) by (nonlinear_arith)
        requires
            y <= k - 1,
    ;
    assert(b * (k - 1) == b * k - b) by (nonlinear_arith)
        requires
            k >= 1,
    ;
}

proof fn lemma_digit_positive(b: nat, x: nat, y: nat)
    requires
        b >= 1,
        x > 0 || y > 0,
    ensures
        x + b * y >= 1,
{
    assert(y > 0 ==> b * y >= 1) by (nonlinear_arith)
        requires
            b >= 1,
    ;
}

proof fn lemma_digits_positive(l0: nat, l1: nat, l2: nat, l3: nat)
    requires
        l0 > 0 || l1 > 0 || l2 > 0 || l3 > 0,
    ensures
        digits_value(l0, l1, l2, l3) >= 1,
{
    let b = limb_base();
    if l2 > 0 || l3 > 0 {
        lemma_digit_positive(b, l2, l3);
    }
    if l1 > 0 || l2 + b * l3 > 0 {
        lemma_digit_positive(b, l1, l2 + b * l3);
    }
    lemma_digit_positive(b, l0, l1 + b * (l2 + b * l3));
}

proof fn lemma_digits_bounded(l0: nat, l1: nat, l2: nat, l3: nat)
    requires
        l0 < limb_base(),
        l1 < limb_base(),
        l2 < limb_base(),
        l3 < limb_base(),
    ensures
        digits_value(l0, l1, l2, l3) < amount_bound(),
{
    let b = limb_base();
    lemma_digit_step(b, l2, l3, b);
    lemma_digit_step(b, l1, l2 + b * l3, b * b);
    lemma_digit_step(b, l0, l1 + b * (l2 + b * l3), b * (b * b));
}

/// Rounded-up quotient `x / y` for `y > 0`.
pub open spec fn ceil_div(x: nat, y: nat) -> nat
    recommends
        y > 0,
{
    ((x + y - 1) as nat) / y
}

/// A 256-bit unsigned amount of wei, as four little-endian 64-bit limbs.
#[derive(Clone, Copy, Debug, PartialEq, Eq, Hash)]
pub struct Amount {
    pub limbs: [u64; 4],
}

/// A 512-bit unsigned intermediate, as eight little-endian 64-bit limbs.
#[derive(Clone, Copy, Debug, PartialEq, Eq)]
pub struct Wide {
    pub limbs: [u64; 8],
}

impl Amount {
    pub open spec fn value(&self) -> nat {
        digits_value(
            self.limbs[0] as nat,
            self.limbs[1] as nat,
            self.limbs[2] as nat,
            self.limbs[3] as nat,
        )
    }

    pub fn zero() -> (r: Amount)
        ensures
            r.value() == 0,
    {
        Amount { limbs: [0, 0, 0, 0] }
    }

    pub fn from_u128(v: u128) -> (r: Amount)
        ensures
            r.value() == v,
    {
        let lo = (v % 0x1_0000_0000_0000_0000) as u64;
        let hi = (v / 0x1_0000_0000_0000_0000) as u64;
        Amount { limbs: [lo, hi, 0, 0] }
    }

    pub fn is_zero(&self) -> (r: bool)
        ensures
            r == (self.value() == 0),
    {
        self.limbs[0] == 0 && self.limbs[1] == 0 && self.limbs[2] == 0 && self.limbs[3] == 0
    }

    pub proof fn lemma_bounded(&self)
        ensures
            self.value() < amount_bound(),
    {
        lemma_digits_bounded(
            self.limbs[0] as nat,
            self.limbs[1] as nat,
            self.limbs[2] as nat,
            self.limbs[3] as nat,
        );
    }
}

impl Wide {
    pub open spec fn low(&self) -> nat {
        digits_value(
            self.limbs[0] as nat,
            self.limbs[1] as nat,
            self.limbs[2] as nat,
            self.limbs[3] as nat,
        )
    }

    pub open spec fn high(&self) -> nat {
        digits_value(
            self.limbs[4] as nat,
            self.limbs[5] as nat,
            self.limbs[6] as nat,
            self.limbs[7] as nat,
        )
    }

    pub open spec fn value(&self) -> nat {
        self.low() + amount_bound() * self.high()
    }

    /// Zero-extends an amount to 512 bits.
    pub fn widen(a: &Amount) -> (r: Wide)
        ensures
            r.value() == a.value(),
    {
        let r = Wide { limbs: [a.limbs[0], a.limbs[1], a.limbs[2], a.limbs[3], 0, 0, 0, 0] };
        assert(r.high() == 0);
        assert(amount_bound() * r.high() == 0);
        r
    }

    /// The low half as an amount, when the high half is zero.
    pub fn narrow(&self) -> (r: Option<Amount>)
        ensures
            r is Some <==> self.value() < amount_bound(),
            r matches Some(a) ==> a.value() == self.value(),
    {
        if self.limbs[4] == 0 && self.limbs[5] == 0 && self.limbs[6] == 0 && self.limbs[7] == 0 {
            let a = Amount { limbs: [self.limbs[0], self.limbs[1], self.limbs[2], self.limbs[3]] };
            Some(a)
        } else {
            proof {
                lemma_digits_bounded(
                    self.limbs[0] as nat,
                    self.limbs[1] as nat,
                    self.limbs[2] as nat,
                    self.limbs[3] as nat,
                );
                lemma_digits_positive(
                    self.limbs[4] as nat,
                    self.limbs[5] as nat,
                    self.limbs[6] as nat,
                    self.limbs[7] as nat,
                );
                let h = self.high();
                assert(amount_bound() * h >= amount_bound()) by (nonlinear_arith)
                    requires
                        h >= 1,
                ;
            }
            None
        }
    }
}

/// Relies on ruint's `Uint::checked_add`: `None` exactly when the sum overflows 256 bits.
#[verifier::external_body]
pub(crate) fn checked_add(a: &Amount, b: &Amount) -> (r: Option<Amount>)
    ensures
        r is Some <==> a.value() + b.value() < amount_bound(),
        r matches Some(s) ==> s.value() == a.value() + b.value(),
{
    U256::from_limbs(a.limbs).checked_add(U256::from_limbs(b.limbs)).map(|s| Amount { limbs: s.into_limbs() })
}

/// Relies on ruint's `Uint::checked_sub`: `None` exactly when `b > a`.
#[verifier::external_body]
pub(crate) fn checked_sub(a: &Amount, b: &Amount) -> (r: Option<Amount>)
    ensures
        r is Some <==> b.value() <= a.value(),
        r matches Some(s) ==> s.value() == a.value() - b.value(),
{
    U256::from_limbs(a.limbs).checked_sub(U256::from_limbs(b.limbs)).map(|s| Amount { limbs: s.into_limbs() })
}

/// Relies on ruint's `Uint::checked_mul`: `None` exactly when the product overflows 256 bits.
#[verifier::external_body]
pub(crate) fn checked_mul(a: &Amount, b: &Amount) -> (r: Option<Amount>)
    ensures
        r is Some <==> a.value() * b.value() < amount_bound(),
        r matches Some(s) ==> s.value() == a.value() * b.value(),
{
    U256::from_limbs(a.limbs).checked_mul(U256::from_limbs(b.limbs)).map(|s| Amount { limbs: s.into_limbs() })
}

/// Relies on ruint's `PartialOrd` for `Uint`: numeric order.
#[verifier::external_body]
pub(crate) fn amount_le(a: &Amount, b: &Amount) -> (r: bool)
    ensures
        r == (a.value() <= b.value()),
{
    U256::from_limbs(a.limbs) <= U256::from_limbs(b.limbs)
}

/// Relies on ruint's `Uint::widening_mul`: the full 512-bit product of two 256-bit values.
#[verifier::external_body]
pub(crate) fn widening_mul(a: &Amount, b: &Amount) -> (r: Wide)
    ensures
        r.value() == a.value() * b.value(),
{
    let p: U512 = U256::from_limbs(a.limbs).widening_mul(U256::from_limbs(b.limbs));
    Wide { limbs: p.into_limbs() }
}

/// Relies on ruint's `Uint::div_ceil`: the quotient rounded up; it panics on a zero divisor.
#[verifier::external_body]
pub(crate) fn wide_div_ceil(x: &Wide, d: &Wide) -> (r: Wide)
    requires
        d.value() > 0,
    ensures
        r.value() == ceil_div(x.value(), d.value()),
{
    Wide { limbs: U512::from_limbs(x.limbs).div_ceil(U512::from_limbs(d.limbs)).into_limbs() }
}

} // verus!
