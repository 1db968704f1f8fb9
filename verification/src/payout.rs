//! The equal-payout calculator.
//!
//! Given an aggregated input of `n` equal deposits swapped through a
//! constant-product pair with a 30-bp fee, it derives the total output, the
//! equal per-participant share, and the realized slippage against the
//! average of the participants' floors. All arithmetic is 128-bit signed;
//! overflow is detected and rejected, never wrapped.

use vstd::prelude::*;
use vstd::arithmetic::div_mod::{lemma_div_is_ordered, lemma_div_by_multiple};
use crate::coinjoin::{CoinJoinMixer, Deposit};
use crate::denomination::Denomination;
use crate::error::BatcherError;

verus! {

/// Payout information for equal distribution.
#[derive(Clone, Copy, Debug, PartialEq, Eq, Structural)]
pub struct PayoutInfo {
    /// Amount each participant receives.
    pub equal_payout_amount: i128,
    /// Total input across all participants.
    pub total_input_amount: i128,
    /// Total output from the aggregated swap.
    pub total_output_amount: i128,
    /// Realized slippage in basis points.
    pub slippage_bps: u32,
    /// Number of participants.
    pub participant_count: u32,
}

/// All deposits of `s` swap the same token pair, in the same direction.
pub open spec fn same_token_pair(s: Seq<Deposit>) -> bool {
    forall|i: int| 0 <= i < s.len()
        ==> (#[trigger] s[i]).token_in == s[0].token_in && s[i].token_out == s[0].token_out
}

/// The sum of the participants' `min_amount_out` floors.
pub open spec fn sum_min_out(s: Seq<Deposit>) -> int
    decreases s.len(),
{
    if s.len() == 0 {
        0
    } else {
        sum_min_out(s.drop_last()) + s.last().min_amount_out
    }
}

/// Every left-to-right partial sum of the floors stays a 128-bit value.
pub open spec fn prefix_sums_fit(s: Seq<Deposit>) -> bool {
    forall|i: int| 0 <= i <= s.len()
        ==> i128::MIN <= sum_min_out(#[trigger] s.take(i)) <= i128::MAX
}

/// The aggregated input: `n` deposits of one denomination.
pub open spec fn total_input_spec(d: Denomination, n: int) -> int {
    d.value_spec() * n
}

/// The aggregated input after the pair's 30-bp fee scaling.
pub open spec fn input_with_fee_spec(d: Denomination, n: int) -> int {
    total_input_spec(d, n) * 997
}

/// Numerator of the constant-product output formula.
pub open spec fn cp_numerator_spec(d: Denomination, n: int, reserve_out: int) -> int {
    input_with_fee_spec(d, n) * reserve_out
}

/// Denominator of the constant-product output formula.
pub open spec fn cp_denominator_spec(d: Denomination, n: int, reserve_in: int) -> int {
    reserve_in * 1000 + input_with_fee_spec(d, n)
}

/// Total output of the aggregated swap:
/// `(a·997·R_out) / (R_in·1000 + a·997)`, truncating.
pub open spec fn total_output_spec(d: Denomination, n: int, reserve_in: int, reserve_out: int)
    -> int
{
    cp_numerator_spec(d, n, reserve_out) / cp_denominator_spec(d, n, reserve_in)
}

/// The equal per-participant share: total output split evenly, truncating.
pub open spec fn equal_share_spec(d: Denomination, n: int, reserve_in: int, reserve_out: int)
    -> int
{
    total_output_spec(d, n, reserve_in, reserve_out) / n
}

/// Realized slippage in basis points, against the average of the
/// participants' floors: `max(0, avg − share) · 10000 / avg`, and `0` when
/// the average floor is not positive.
pub open spec fn slippage_bps_spec(s: Seq<Deposit>, share: int) -> int {
    let total = sum_min_out(s);
    let n = s.len() as int;
    if total > 0 {
        let avg = total / n;
        if avg > share {
            (avg - share) * 10000 / avg
        } else {
            0
        }
    } else {
        0
    }
}

/// The slippage numerator stays a 128-bit value.
pub open spec fn slippage_mul_fits(s: Seq<Deposit>, share: int) -> bool {
    let total = sum_min_out(s);
    let n = s.len() as int;
    (total > 0 && total / n > share) ==> (total / n - share) * 10000 <= i128::MAX
}

/// The payout of `n` deposits of denomination `d` against reserves
/// `(reserve_in, reserve_out)` is defined: the set is non-empty and fits a
/// 32-bit count, the reserves are non-negative, all deposits share one
/// token pair, and no intermediate 128-bit value overflows.
pub open spec fn payout_ok(d: Denomination, s: Seq<Deposit>, reserve_in: int, reserve_out: int)
    -> bool
{
    let n = s.len() as int;
    &&& n > 0
    &&& n <= u32::MAX as int
    &&& reserve_in >= 0
    &&& reserve_out >= 0
    &&& same_token_pair(s)
    &&& cp_numerator_spec(d, n, reserve_out) <= i128::MAX
    &&& cp_denominator_spec(d, n, reserve_in) <= i128::MAX
    &&& prefix_sums_fit(s)
    &&& slippage_mul_fits(s, equal_share_spec(d, n, reserve_in, reserve_out))
}

/// The payout record that a defined computation yields.
pub open spec fn payout_info_spec(d: Denomination, s: Seq<Deposit>, reserve_in: int,
    reserve_out: int) -> PayoutInfo
{
    let n = s.len() as int;
    PayoutInfo {
        equal_payout_amount: equal_share_spec(d, n, reserve_in, reserve_out) as i128,
        total_input_amount: total_input_spec(d, n) as i128,
        total_output_amount: total_output_spec(d, n, reserve_in, reserve_out) as i128,
        slippage_bps: slippage_bps_spec(s, equal_share_spec(d, n, reserve_in, reserve_out)) as u32,
        participant_count: n as u32,
    }
}

/// The denomination values all lie between 10^7 and 2·10^9.
pub proof fn lemma_value_bounds(d: Denomination)
    ensures
        10_000_000 <= d.value_spec() <= 2_000_000_000,
{
}

/// Appending one deposit extends the floor sum by its floor.
pub proof fn lemma_sum_take_step(s: Seq<Deposit>, i: int)
    requires
        0 <= i < s.len(),
    ensures
        sum_min_out(s.take(i + 1)) == sum_min_out(s.take(i)) + s[i].min_amount_out,
{
    assert(s.take(i + 1).drop_last() =~= s.take(i));
    assert(s.take(i + 1).last() == s[i]);
}

impl CoinJoinMixer {
    /// Calculate the equal payout for a set of deposits of one denomination
    /// against the live pair reserves.
    ///
    /// Succeeds exactly when the computation is defined ([`payout_ok`]);
    /// otherwise fails with `InvalidInput` (empty set, mismatched token
    /// pairs, negative reserves, or 128-bit overflow).
    pub fn calculate_equal_payout(
        denomination: Denomination,
        deposits: &Vec<Deposit>,
        reserve_in: i128,
        reserve_out: i128,
    ) -> (r: Result<PayoutInfo, BatcherError>)
        ensures
            r.is_ok() <==> payout_ok(denomination, deposits@, reserve_in as int,
                reserve_out as int),
            r matches Ok(p) ==> p == payout_info_spec(denomination, deposits@,
                reserve_in as int, reserve_out as int),
            r.is_ok() ==> 0 <= equal_share_spec(denomination, deposits@.len() as int,
                reserve_in as int, reserve_out as int) <= i128::MAX,
            r.is_ok() ==> 0 <= slippage_bps_spec(deposits@, equal_share_spec(denomination,
                deposits@.len() as int, reserve_in as int, reserve_out as int)) <= 10000,
            r matches Err(e) ==> e == BatcherError::InvalidInput,
    {
        let ghost s = deposits@;
        let n = deposits.len();
        if n == 0 {
            return Err(BatcherError::InvalidInput);
        }
        if n > u32::MAX as usize {
            return Err(BatcherError::InvalidInput);
        }
        if reserve_in < 0 || reserve_out < 0 {
            return Err(BatcherError::InvalidInput);
        }

        // All deposits must swap one token pair, in one direction.
        let first_token_in = deposits[0].token_in;
        let first_token_out = deposits[0].token_out;
        let mut i: usize = 0;
        while i < n
            invariant
                s == deposits@,
                n == s.len(),
                first_token_in == s[0].token_in,
                first_token_out == s[0].token_out,
                0 <= i <= n,
                forall|j: int| 0 <= j < i
                    ==> (#[trigger] s[j]).token_in == s[0].token_in
                        && s[j].token_out == s[0].token_out,
            decreases n - i,
        {
            if deposits[i].token_in != first_token_in
                || deposits[i].token_out != first_token_out {
                return Err(BatcherError::InvalidInput);
            }
            i = i + 1;
        }

        // Aggregated input and its fee-scaled form never overflow: the
        // denomination value is at most 2·10^9 and the count fits 32 bits.
        let value = denomination.value();
        proof {
            lemma_value_bounds(denomination);
        }
        let nn = n as i128;
        assert(value * nn <= 8_589_934_590_000_000_000 && value * nn >= 1) by (nonlinear_arith)
            requires
                10_000_000 <= value <= 2_000_000_000,
                1 <= nn <= 4_294_967_295,
        ;
        let total_input_amount = value * nn;
        assert(total_input_amount * 997 <= i128::MAX) by (nonlinear_arith)
            requires
                1 <= total_input_amount <= 8_589_934_590_000_000_000i128,
        ;
        let amount_in_with_fee = total_input_amount * 997;

        // The constant-product numerator and denominator are checked.
        assert(reserve_in * 1000 >= 0 && amount_in_with_fee * reserve_out >= 0)
            by (nonlinear_arith)
            requires
                reserve_in >= 0,
                reserve_out >= 0,
                amount_in_with_fee >= 1,
        ;
        let numerator = match amount_in_with_fee.checked_mul(reserve_out) {
            Some(v) => v,
            None => {
                assert(cp_numerator_spec(denomination, n as int, reserve_out as int)
                    > i128::MAX);
                return Err(BatcherError::InvalidInput);
            },
        };
        let reserve_scaled = match reserve_in.checked_mul(1000) {
            Some(v) => v,
            None => {
                assert(cp_denominator_spec(denomination, n as int, reserve_in as int)
                    > i128::MAX);
                return Err(BatcherError::InvalidInput);
            },
        };
        let denominator = match reserve_scaled.checked_add(amount_in_with_fee) {
            Some(v) => v,
            None => {
                assert(cp_denominator_spec(denomination, n as int, reserve_in as int)
                    > i128::MAX);
                return Err(BatcherError::InvalidInput);
            },
        };
        assert(denominator > 0);
        let total_output_amount = numerator / denominator;
        let equal_payout_amount = total_output_amount / nn;
        assert(total_output_amount >= 0);
        assert(equal_payout_amount >= 0);

        // Sum the participants' floors; every partial sum is checked.
        let mut total_min: i128 = 0;
        let mut k: usize = 0;
        while k < n
            invariant
                s == deposits@,
                n == s.len(),
                0 <= k <= n,
                total_min == sum_min_out(s.take(k as int)),
                forall|j: int| 0 <= j <= k
                    ==> i128::MIN <= sum_min_out(#[trigger] s.take(j)) <= i128::MAX,
            decreases n - k,
        {
            proof {
                lemma_sum_take_step(s, k as int);
            }
            total_min = match total_min.checked_add(deposits[k].min_amount_out) {
                Some(v) => v,
                None => {
                    proof {
                        assert(sum_min_out(s.take(k as int + 1)) > i128::MAX
                            || sum_min_out(s.take(k as int + 1)) < i128::MIN);
                        assert(!prefix_sums_fit(s));
                    }
                    return Err(BatcherError::InvalidInput);
                },
            };
            k = k + 1;
        }
        proof {
            assert(s.take(n as int) =~= s);
            assert(prefix_sums_fit(s));
        }

        // Realized slippage against the average floor.
        let slippage_bps: u32 = if total_min > 0 {
            let avg_min = total_min / nn;
            if avg_min > equal_payout_amount {
                let diff = avg_min - equal_payout_amount;
                let scaled = match diff.checked_mul(10000) {
                    Some(v) => v,
                    None => {
                        return Err(BatcherError::InvalidInput);
                    },
                };
                let slip = scaled / avg_min;
                proof {
                    lemma_div_is_ordered(diff * 10000, avg_min * 10000, avg_min as int);
                    lemma_div_by_multiple(10000, avg_min as int);
                    assert(diff * 10000 <= avg_min * 10000) by (nonlinear_arith)
                        requires
                            diff <= avg_min,
                    ;
                }
                assert(slip <= 10000);
                slip as u32
            } else {
                0
            }
        } else {
            0
        };

        proof {
            assert(equal_payout_amount == equal_share_spec(denomination, n as int,
                reserve_in as int, reserve_out as int));
            assert(slippage_bps == slippage_bps_spec(s, equal_share_spec(denomination,
                n as int, reserve_in as int, reserve_out as int)));
        }
        Ok(PayoutInfo {
            equal_payout_amount,
            total_input_amount,
            total_output_amount,
            slippage_bps,
            participant_count: n as u32,
        })
    }
}

} // verus!
