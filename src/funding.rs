//! Funding rate from the spread between mark and index price, in fixed point
//! scaled by 1e9, for one eight-hour slice of a day.
use vstd::prelude::*;

verus! {

/// Fixed-point scale of a rate.
pub const FUNDING_SCALE: u128 = 1_000_000_000;

/// Funding slices per day.
pub const FUNDING_PERIODS: u128 = 3;

/// Division that truncates toward zero, for `b > 0`.
pub open spec fn trunc_div(a: int, b: int) -> int {
    if a >= 0 { a / b } else { -((-a) / b) }
}

/// The rate for `mark` and `index`: the spread scaled by 1e9, divided by the
/// index price, then by the number of slices, each step truncating toward zero.
pub open spec fn funding_of(mark: u64, index: u64) -> int {
    trunc_div(trunc_div((mark - index) * FUNDING_SCALE, index as int), FUNDING_PERIODS as int)
}

/// The rate fits the signed 64-bit fixed-point representation.
pub open spec fn fits_rate(mark: u64, index: u64) -> bool {
    i64::MIN <= funding_of(mark, index) <= i64::MAX
}

#[derive(Clone, Copy, Debug, PartialEq, Eq, Structural)]
pub struct FundingRate {
    /// Fixed point, scaled by 1e9.
    pub rate: i64,
    pub last_update: i64,
}

/// The rate for `mark` and `index`, or `None` when the index price is zero or
/// the rate does not fit an `i64`.
pub fn funding_for(mark_price: u64, index_price: u64) -> (r: Option<i64>)
    ensures
        r.is_some() <==> index_price != 0 && fits_rate(mark_price, index_price),
        r.is_some() ==> r.unwrap() == funding_of(mark_price, index_price),
{
    if index_price == 0 {
        return None;
    }
    let index = index_price as u128;
    if mark_price >= index_price {
        let diff = (mark_price - index_price) as u128;
        assert(diff * FUNDING_SCALE <= u64::MAX * FUNDING_SCALE) by (nonlinear_arith)
            requires diff <= u64::MAX;
        let scaled = diff * FUNDING_SCALE;
        let step1 = scaled / index;
        let funding = step1 / FUNDING_PERIODS;
        if funding > i64::MAX as u128 {
            None
        } else {
            Some(funding as i64)
        }
    } else {
        let diff = (index_price - mark_price) as u128;
        assert(diff * FUNDING_SCALE <= u64::MAX * FUNDING_SCALE) by (nonlinear_arith)
            requires diff <= u64::MAX;
        let scaled = diff * FUNDING_SCALE;
        let step1 = scaled / index;
        assert(step1 <= FUNDING_SCALE) by {
            lemma_spread_below_scale(diff as int, index as int);
        }
        let funding = step1 / FUNDING_PERIODS;
        Some(-(funding as i64))
    }
}

/// A spread no larger than the index price scales to at most one whole unit.
proof fn lemma_spread_below_scale(d: int, index: int)
    requires
        0 <= d <= index,
        index > 0,
    ensures
        (d * FUNDING_SCALE) / index <= FUNDING_SCALE,
{
    let s = FUNDING_SCALE as int;
    assert(d * s <= s * index) by (nonlinear_arith)
        requires 0 <= d <= index, s >= 0;
    vstd::arithmetic::div_mod::lemma_div_is_ordered(d * s, s * index, index);
    vstd::arithmetic::div_mod::lemma_div_multiples_vanish(s, index);
}

impl FundingRate {
    pub fn new() -> (r: Self)
        ensures
            r.rate == 0,
            r.last_update == 0,
    {
        FundingRate { rate: 0, last_update: 0 }
    }

    /// Recomputes the rate from `mark_price` and `index_price` at time `now`.
    /// A zero index price leaves the rate and its time as they were.
    pub fn update(&mut self, mark_price: u64, index_price: u64, now: i64)
        requires
            index_price != 0 ==> fits_rate(mark_price, index_price),
        ensures
            index_price == 0 ==> *final(self) == *old(self),
            index_price != 0 ==> final(self).rate == funding_of(mark_price, index_price)
                && final(self).last_update == now,
    {
        match funding_for(mark_price, index_price) {
            Some(rate) => {
                self.rate = rate;
                self.last_update = now;
            },
            None => {},
        }
    }
}

/// For a positive index price the rate never has the opposite sign of
/// `mark - index`, is zero when they are equal, and has the same sign as the
/// spread whenever the spread scaled by 1e9 reaches three times the index price,
/// so that truncation cannot wipe it out.
pub proof fn lemma_funding_sign(mark: u64, index: u64)
    requires
        index > 0,
    ensures
        funding_of(mark, index) > 0 ==> mark > index,
        funding_of(mark, index) < 0 ==> mark < index,
        mark == index ==> funding_of(mark, index) == 0,
        FUNDING_PERIODS * index <= abs_diff(mark, index) * FUNDING_SCALE ==> (funding_of(
            mark,
            index,
        ) > 0 <==> mark > index) && (funding_of(mark, index) < 0 <==> mark < index),
{
    let d = abs_diff(mark, index);
    let x = d * FUNDING_SCALE;
    assert(x >= 0) by (nonlinear_arith)
        requires d >= 0, x == d * 1_000_000_000;
    vstd::arithmetic::div_mod::lemma_div_pos_is_pos(x, index as int);
    vstd::arithmetic::div_mod::lemma_div_pos_is_pos(x / index as int, FUNDING_PERIODS as int);
    if FUNDING_PERIODS * index <= x {
        vstd::arithmetic::div_mod::lemma_div_is_ordered(
            FUNDING_PERIODS * index, x, index as int);
        vstd::arithmetic::div_mod::lemma_div_multiples_vanish(FUNDING_PERIODS as int, index as int);
        assert(FUNDING_PERIODS * index == index * FUNDING_PERIODS) by (nonlinear_arith);
        assert(x / index as int >= 3);
        vstd::arithmetic::div_mod::lemma_div_is_ordered(3, x / index as int, 3);
    }
    if mark == index {
        assert(x == 0);
    }
    if mark < index {
        assert((mark - index) * FUNDING_SCALE == -x) by (nonlinear_arith)
            requires d == index - mark, x == d * FUNDING_SCALE;
    } else {
        assert((mark - index) * FUNDING_SCALE == x);
    }
}

/// Distance between two prices.
pub open spec fn abs_diff(a: u64, b: u64) -> int {
    if a >= b { a - b } else { b - a }
}

} // verus!
