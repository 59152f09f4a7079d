use vstd::prelude::*;
use vstd::arithmetic::div_mod::{lemma_fundamental_div_mod, lemma_fundamental_div_mod_converse, lemma_mod_pos_bound};

use crate::errors::SolcastError;

verus! {

/// Commission kept by the market on every payout, in percent.
pub const COMMISSION_RATE: u64 = 5;

/// The payout owed to a winning stake, truncated toward zero:
/// the pool `total_value` times the stake's fraction `amount / total_winning`
/// of the winning side, less the commission. The fraction is taken exactly.
pub open spec fn payout_spec(total_value: int, amount: int, total_winning: int) -> int {
    (total_value * amount * (100 - COMMISSION_RATE)) / (total_winning * 100)
}

/// Computes the net payout of a winning stake of `share_amount` out of a
/// winning side totalling `total_winning`, in a pool of `total_value`.
pub fn compute_payout(total_value: u64, share_amount: u64, total_winning: u64) -> (r: Result<
    u64,
    SolcastError,
>)
    ensures
        total_winning == 0 ==> r == Err::<u64, SolcastError>(SolcastError::NoWinningShares),
        total_winning > 0 && payout_spec(total_value as int, share_amount as int, total_winning as int)
            <= u64::MAX ==> r == Ok::<u64, SolcastError>(
            payout_spec(total_value as int, share_amount as int, total_winning as int) as u64,
        ),
        total_winning > 0 && payout_spec(total_value as int, share_amount as int, total_winning as int)
            > u64::MAX ==> r == Err::<u64, SolcastError>(SolcastError::ArithmeticOverflow),
{
    if total_winning == 0 {
        return Err(SolcastError::NoWinningShares);
    }
    let keep: u128 = (100 - COMMISSION_RATE) as u128;
    assert(total_value as int * share_amount as int <= u64::MAX as int * u64::MAX as int)
        by (nonlinear_arith);
    let num: u128 = total_value as u128 * share_amount as u128;
    let den: u128 = total_winning as u128 * 100;
    let q: u128 = num / den;
    let rem: u128 = num % den;
    proof {
        lemma_fundamental_div_mod(num as int, den as int);
        lemma_mod_pos_bound(num as int, den as int);
        assert(q as int * 100 <= num as int) by (nonlinear_arith)
            requires
                num as int == den as int * q as int + rem as int,
                rem >= 0,
                den >= 100,
                q >= 0,
        ;
    }
    let whole: u128 = q * keep;
    let part: u128 = (rem * keep) / den;
    proof {
        let x = num as int * keep as int;
        let pq = (rem as int * keep as int) / den as int;
        let pr = (rem as int * keep as int) % den as int;
        lemma_fundamental_div_mod(rem as int * keep as int, den as int);
        lemma_mod_pos_bound(rem as int * keep as int, den as int);
        assert(x == (whole as int + pq) * den as int + pr) by (nonlinear_arith)
            requires
                num as int == den as int * q as int + rem as int,
                rem as int * keep as int == den as int * pq + pr,
                whole as int == q as int * keep as int,
                x == num as int * keep as int,
        ;
        lemma_fundamental_div_mod_converse(x, den as int, whole as int + pq, pr);
        assert(total_value as int * share_amount as int * (100 - COMMISSION_RATE) == x);
        assert(payout_spec(total_value as int, share_amount as int, total_winning as int)
            == whole as int + part as int);
        assert(whole as int + part as int <= num as int) by (nonlinear_arith)
            requires
                whole as int + part as int == x / den as int,
                x == num as int * keep as int,
                keep <= 100,
                den >= 100,
                num >= 0,
        ;
    }
    let total: u128 = whole + part;
    if total > u64::MAX as u128 {
        Err(SolcastError::ArithmeticOverflow)
    } else {
        Ok(total as u64)
    }
}

} // verus!

verus! {

/// A stake no larger than its winning side is paid at most the whole pool.
pub proof fn lemma_payout_within_pool(total_value: int, amount: int, total_winning: int)
    requires
        0 <= amount <= total_winning,
        0 < total_winning,
        0 <= total_value,
    ensures
        0 <= payout_spec(total_value, amount, total_winning) <= total_value,
{
    let den = total_winning * 100;
    let x = total_value * amount * (100 - COMMISSION_RATE);
    assert(0 <= x <= total_value * den) by (nonlinear_arith)
        requires
            0 <= amount <= total_winning,
            0 <= total_value,
            den == total_winning * 100,
            x == total_value * amount * (100 - COMMISSION_RATE),
    ;
    vstd::arithmetic::div_mod::lemma_div_is_ordered(x, total_value * den, den);
    vstd::arithmetic::div_mod::lemma_div_by_multiple(total_value, den);
    vstd::arithmetic::div_mod::lemma_div_pos_is_pos(x, den);
}

} // verus!
