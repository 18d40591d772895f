use crate::amount::{
    amount_bound, amount_le, ceil_div, checked_add, checked_sub, widening_mul, wide_div_ceil,
    Amount, Wide,
};
use vstd::prelude::*;

verus! {

/// A taint score: how much of a balance is attributable to the sources.
#[derive(Clone, Copy, Debug, PartialEq, Eq)]
pub struct Score {
    pub balance: Amount,
    pub dirty_amount: Amount,
}

/// The dirty part of a transfer of `v` taken from a holding with balance `b`
/// and dirty amount `d`, rounded up.
pub open spec fn split_dirty(v: nat, b: nat, d: nat) -> nat {
    ceil_div(v * d, b)
}

/// The score a transfer of `v` carries when taken from a holding `prior`
/// (with `(bal, dirt)`): proportional with ceiling, and clean when the holding
/// is empty.
pub open spec fn transfer_part(v: nat, bal: nat, dirt: nat) -> (nat, nat) {
    if bal == 0 {
        (v, 0)
    } else {
        (v, split_dirty(v, bal, dirt))
    }
}

proof fn lemma_ceil_div_props(x: nat, y: nat)
    requires
        y > 0,
    ensures
        ceil_div(x, y) * y >= x,
        ceil_div(x, y) * y < x + y,
        x / y <= ceil_div(x, y) <= x / y + 1,
{
    let n = (x + y - 1) as nat;
    let c = n / y;
    assert(c == ceil_div(x, y));
    vstd::arithmetic::div_mod::lemma_fundamental_div_mod(n as int, y as int);
    vstd::arithmetic::div_mod::lemma_fundamental_div_mod(x as int, y as int);
    vstd::arithmetic::div_mod::lemma_mod_bound(n as int, y as int);
    vstd::arithmetic::div_mod::lemma_mod_bound(x as int, y as int);
    let rn = n % y;
    assert(n == y * c + rn);
    assert(c * y >= x) by (nonlinear_arith)
        requires
            n == y * c + rn,
            rn < y,
            rn >= 0,
            n + 1 == x + y,
    ;
    assert(c * y < x + y) by (nonlinear_arith)
        requires
            n == y * c + rn,
            rn >= 0,
            n + 1 == x + y,
    ;
    let q = x / y;
    assert(q <= c) by (nonlinear_arith)
        requires
            x == y * q + x % y,
            x % y >= 0,
            c * y >= x,
            y > 0,
            q >= 0,
    {
        if q > c {
            assert(y * q >= y * (c + 1));
        }
    }
    assert(c <= q + 1) by (nonlinear_arith)
        requires
            x == y * q + x % y,
            x % y < y,
            c * y < x + y,
            y > 0,
    {
        if c > q + 1 {
            assert(c * y >= (q + 2) * y);
        }
    }
}

/// Facts about the rounded-up proportional split.
pub proof fn lemma_split_bounds(v: nat, b: nat, d: nat)
    requires
        b > 0,
        d <= b,
    ensures
        (v * d) / b <= split_dirty(v, b, d) <= ceil_div(v * d, b),
        split_dirty(v, b, d) <= v,
        d == 0 ==> split_dirty(v, b, d) == 0,
        d == b ==> split_dirty(v, b, d) == v,
        v <= b ==> split_dirty(v, b, d) <= d,
        v <= b ==> d - split_dirty(v, b, d) <= b - v,
{
    let c = split_dirty(v, b, d);
    lemma_ceil_div_props(v * d, b);
    assert(v * d <= v * b) by (nonlinear_arith)
        requires
            d <= b,
    ;
    assert(c <= v) by (nonlinear_arith)
        requires
            c * b < v * d + b,
            v * d <= v * b,
            b > 0,
    {
        if c > v {
            assert(c * b >= (v + 1) * b);
        }
    }
    if d == 0 {
        assert(v * d == 0);
        assert(c * b < b);
        assert(c == 0) by (nonlinear_arith)
            requires
                c * b < b,
                b > 0,
        {
            if c >= 1 {
                assert(c * b >= b);
            }
        }
    }
    if d == b {
        assert(c * b >= v * b);
        assert(c >= v) by (nonlinear_arith)
            requires
                c * b >= v * b,
                b > 0,
        {
            if c < v {
                assert(c * b < v * b);
            }
        }
    }
    if v <= b {
        assert(v * d <= b * d) by (nonlinear_arith)
            requires
                v <= b,
        ;
        assert(c <= d) by (nonlinear_arith)
            requires
                c * b < v * d + b,
                v * d <= b * d,
                b > 0,
        {
            if c > d {
                assert(c * b >= (d + 1) * b);
            }
        }
        assert((d + v - b) * b <= v * d) by (nonlinear_arith)
            requires
                v <= b,
                d <= b,
        {
            assert((b - v) * (b - d) >= 0);
        }
        assert(d + v <= c + b) by (nonlinear_arith)
            requires
                c * b >= v * d,
                (d + v - b) * b <= v * d,
                b > 0,
        {
            if d + v > c + b {
                assert((d + v - b) > c);
                assert((d + v - b) * b > c * b);
            }
        }
    }
}

impl Score {
    /// `dirty_amount <= balance`.
    pub open spec fn wf(&self) -> bool {
        self.dirty_amount.value() <= self.balance.value()
    }

    pub open spec fn bal(&self) -> nat {
        self.balance.value()
    }

    pub open spec fn dirt(&self) -> nat {
        self.dirty_amount.value()
    }

    /// Builds a score; the dirty amount may not exceed the balance.
    pub fn new(balance: Amount, dirty_amount: Amount) -> (r: Score)
        requires
            dirty_amount.value() <= balance.value(),
        ensures
            r.balance == balance,
            r.dirty_amount == dirty_amount,
            r.wf(),
    {
        Score { balance, dirty_amount }
    }

    /// Builds a score, or `None` when the dirty amount exceeds the balance.
    pub fn try_new(balance: Amount, dirty_amount: Amount) -> (r: Option<Score>)
        ensures
            r is Some <==> dirty_amount.value() <= balance.value(),
            r matches Some(s) ==> s.balance == balance && s.dirty_amount == dirty_amount,
    {
        if amount_le(&dirty_amount, &balance) {
            Some(Score { balance, dirty_amount })
        } else {
            None
        }
    }

    pub fn new_clean(balance: Amount) -> (r: Score)
        ensures
            r.balance == balance,
            r.dirt() == 0,
            r.wf(),
    {
        Score { balance, dirty_amount: Amount::zero() }
    }

    pub fn new_dirty(balance: Amount) -> (r: Score)
        ensures
            r.balance == balance,
            r.dirty_amount == balance,
            r.wf(),
    {
        Score { balance, dirty_amount: balance }
    }

    /// A fully dirty score with the same balance.
    pub fn as_dirty(&self) -> (r: Score)
        ensures
            r.balance == self.balance,
            r.dirty_amount == self.balance,
            r.wf(),
    {
        Score { balance: self.balance, dirty_amount: self.balance }
    }

    pub fn is_dirty(&self) -> (r: bool)
        ensures
            r == (self.dirt() != 0),
    {
        !self.dirty_amount.is_zero()
    }

    /// A score of `balance` with the same share of dirt as `proportion`,
    /// the dirty amount rounded up.
    pub fn with_same_uncleanliness_ceil(balance: Amount, proportion: &Score) -> (r: Score)
        requires
            proportion.wf(),
            proportion.bal() > 0,
        ensures
            r.balance == balance,
            r.dirt() == split_dirty(balance.value(), proportion.bal(), proportion.dirt()),
            r.wf(),
    {
        let product = widening_mul(&balance, &proportion.dirty_amount);
        let divisor = Wide::widen(&proportion.balance);
        let quotient = wide_div_ceil(&product, &divisor);
        proof {
            lemma_split_bounds(balance.value(), proportion.bal(), proportion.dirt());
            balance.lemma_bounded();
        }
        match quotient.narrow() {
            Some(dirty_amount) => Score { balance, dirty_amount },
            None => {
                proof {
                    assert(false);
                }
                Score::new_clean(balance)
            }
        }
    }

    /// Component-wise sum, or `None` when a component overflows 256 bits.
    pub fn checked_add(&self, rhs: &Score) -> (r: Option<Score>)
        requires
            self.wf(),
            rhs.wf(),
        ensures
            r is Some <==> self.bal() + rhs.bal() < amount_bound(),
            r matches Some(s) ==> s.bal() == self.bal() + rhs.bal() && s.dirt() == self.dirt()
                + rhs.dirt() && s.wf(),
    {
        match checked_add(&self.balance, &rhs.balance) {
            Some(balance) => {
                let dirty_amount = match checked_add(&self.dirty_amount, &rhs.dirty_amount) {
                    Some(d) => d,
                    None => {
                        proof {
                            assert(false);
                        }
                        Amount::zero()
                    },
                };
                Some(Score { balance, dirty_amount })
            },
            None => None,
        }
    }

    /// Component-wise difference; `rhs` may not exceed `self` in either component.
    pub fn sub(&self, rhs: &Score) -> (r: Score)
        requires
            rhs.bal() <= self.bal(),
            rhs.dirt() <= self.dirt(),
            self.dirt() - rhs.dirt() <= self.bal() - rhs.bal(),
        ensures
            r.bal() == self.bal() - rhs.bal(),
            r.dirt() == self.dirt() - rhs.dirt(),
            r.wf(),
    {
        let balance = match checked_sub(&self.balance, &rhs.balance) {
            Some(b) => b,
            None => {
                proof {
                    assert(false);
                }
                Amount::zero()
            },
        };
        let dirty_amount = match checked_sub(&self.dirty_amount, &rhs.dirty_amount) {
            Some(d) => d,
            None => {
                proof {
                    assert(false);
                }
                Amount::zero()
            },
        };
        Score { balance, dirty_amount }
    }
}

/// Splitting `v` off a holding `r` keeps the balance `v` and a dirty amount
/// between the exact share rounded down and rounded up, never above `v`.
pub proof fn lemma_split_conservative(v: Amount, r: Score)
    requires
        r.wf(),
        r.bal() > 0,
    ensures
        (v.value() * r.dirt()) / r.bal() <= split_dirty(v.value(), r.bal(), r.dirt()),
        split_dirty(v.value(), r.bal(), r.dirt()) <= ceil_div(v.value() * r.dirt(), r.bal()),
        split_dirty(v.value(), r.bal(), r.dirt()) <= v.value(),
{
    lemma_split_bounds(v.value(), r.bal(), r.dirt());
}

/// A split off a clean holding is clean; a split off a fully dirty holding
/// is fully dirty.
pub proof fn lemma_split_ratio_extremes(v: Amount, r: Score)
    requires
        r.wf(),
        r.bal() > 0,
    ensures
        r.dirt() == 0 ==> split_dirty(v.value(), r.bal(), r.dirt()) == 0,
        r.dirt() == r.bal() ==> split_dirty(v.value(), r.bal(), r.dirt()) == v.value(),
{
    lemma_split_bounds(v.value(), r.bal(), r.dirt());
}

} // verus!
