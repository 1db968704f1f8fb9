//! The settlement executor.
//!
//! When a pool is ready — at least the minimum number of deposits from at
//! least the minimum number of distinct senders — the executor filters the
//! pending deposits to the live token pair and unexpired entries, selects
//! the largest qualifying participant set, computes the equal payout, and
//! retires the settled deposits. The outward effects (the custody transfer
//! to the pair, the one-sided swap, and the equal payout transfers) are
//! returned as a [`SettlementPlan`] for the host to perform atomically.

use vstd::prelude::*;
use crate::coinjoin::{
    Address, Bytes32, CoinJoinMixer, Deposit, PoolEntry, distinct_sender_count,
    nullifiers_distinct,
};
use crate::denomination::Denomination;
use crate::error::BatcherError;
use crate::payout::{payout_info_spec, payout_ok};
use crate::selector::{descend, lemma_selected_set_maximal, stable_sort_spec};

verus! {

/// A live view of the external constant-product pair: its identity, its
/// token ordering and its current reserves, as read by the host right
/// before settlement.
#[derive(Clone, Copy, Debug, PartialEq, Eq, Structural)]
pub struct PairView {
    pub pair_address: Address,
    pub token_0: Address,
    pub token_1: Address,
    pub reserve_0: i128,
    pub reserve_1: i128,
}

/// One token transfer the host shall perform.
#[derive(Clone, Copy, Debug, PartialEq, Eq, Structural)]
pub struct Transfer {
    pub token: Address,
    pub from: Address,
    pub to: Address,
    pub amount: i128,
}

/// One invocation of the pair's swap, with a one-sided output.
#[derive(Clone, Copy, Debug, PartialEq, Eq, Structural)]
pub struct SwapCall {
    pub pair: Address,
    pub amount_0_out: i128,
    pub amount_1_out: i128,
    pub to: Address,
}

/// The outward effects of one settlement, in the order the host shall
/// perform them: move the aggregated input into the pair, invoke the swap
/// with the mixer as destination, then pay every recipient its equal share.
#[derive(Debug)]
pub struct SettlementPlan {
    pub token_in: Address,
    pub token_out: Address,
    pub pair_transfer: Transfer,
    pub swap_call: SwapCall,
    pub payouts: Vec<Transfer>,
}

/// Result of one mixing invocation.
#[derive(Debug)]
pub struct MixResult {
    pub success: bool,
    /// The amount delivered to each settled participant, one entry each.
    pub mixed_amounts: Vec<i128>,
    pub gas_used: u64,
    pub anonymity_set_size: u32,
    pub fees_paid: i128,
    /// The outward effects, when a set was settled.
    pub settlement: Option<SettlementPlan>,
}

/// The candidate predicate: a deposit is considered for this settlement iff
/// it swaps the settled token pair and has not expired.
pub open spec fn is_candidate(token_in: Address, token_out: Address, now: u64)
    -> spec_fn(Deposit) -> bool
{
    |d: Deposit| d.token_in == token_in && d.token_out == token_out && d.expiry_timestamp > now
}

/// The first `cap` elements of `s`, or all of `s` when it is shorter.
pub open spec fn capped(s: Seq<Deposit>, cap: int) -> Seq<Deposit> {
    if s.len() <= cap {
        s
    } else {
        s.take(cap)
    }
}

/// The candidates of one settlement: the pending deposits filtered to the
/// pair and to unexpired entries, the first `cap` of them.
pub open spec fn candidates_spec(deps: Seq<Deposit>, token_in: Address, token_out: Address,
    now: u64, cap: int) -> Seq<Deposit>
{
    capped(deps.filter(is_candidate(token_in, token_out, now)), cap)
}

/// The keep predicate of pruning: a deposit stays iff its nullifier is not
/// among the settled ones.
pub open spec fn keeps(settled: Seq<Bytes32>) -> spec_fn(Deposit) -> bool {
    |d: Deposit| !settled.contains(d.nullifier)
}

/// The nullifiers of the settled set.
pub open spec fn settled_nullifiers_spec(sel: Seq<Deposit>) -> Seq<Bytes32> {
    sel.map_values(|d: Deposit| d.nullifier)
}

/// The sum of the mixer fees recorded on the deposits of `s`.
pub open spec fn sum_fees(s: Seq<Deposit>) -> int
    decreases s.len(),
{
    if s.len() == 0 {
        0
    } else {
        sum_fees(s.drop_last()) + s.last().fee_paid
    }
}

/// The sum of the amounts of a transfer sequence.
pub open spec fn sum_amounts(s: Seq<Transfer>) -> int
    decreases s.len(),
{
    if s.len() == 0 {
        0
    } else {
        sum_amounts(s.drop_last()) + s.last().amount
    }
}

/// A result that reports a pool not yet ready: nothing mixed, nothing owed.
pub open spec fn not_ready_result(m: MixResult) -> bool {
    &&& !m.success
    &&& m.mixed_amounts@ == Seq::<i128>::empty()
    &&& m.gas_used == 0
    &&& m.anonymity_set_size == 0
    &&& m.fees_paid == 0
    &&& m.settlement is None
}

/// The reserves of `pair` seen from the swap direction: the input token's
/// reserve first.
pub open spec fn oriented_reserves(pair: PairView, token_in: Address) -> (int, int) {
    if pair.token_0 == token_in {
        (pair.reserve_0 as int, pair.reserve_1 as int)
    } else {
        (pair.reserve_1 as int, pair.reserve_0 as int)
    }
}

/// `pair` serves exactly the settled token pair, in either order.
pub open spec fn pair_matches(pair: PairView, token_in: Address, token_out: Address) -> bool {
    ||| (pair.token_0 == token_in && pair.token_1 == token_out)
    ||| (pair.token_1 == token_in && pair.token_0 == token_out)
}

/// The deposit cap of one mixing invocation: the explicit `max_deposits`,
/// or the pool's configured maximum.
pub open spec fn cap_spec(max_deposits: Option<u32>, maximum_pool_size: u32) -> int {
    match max_deposits {
        Some(c) => c as int,
        None => maximum_pool_size as int,
    }
}

/// What one mixing attempt over pending deposits `deps` decides:
/// `None` when the unique-sender gate keeps the pool closed; otherwise the
/// selection outcome — the settled set size, or the error (`PairNotFound`
/// for a pair that serves other tokens, the selector's error otherwise).
pub open spec fn mix_outcome(d: Denomination, deps: Seq<Deposit>, minimum_pool_size: int,
    cap: int, pair: PairView, now: u64) -> Option<Result<int, BatcherError>>
{
    if !(deps.len() >= minimum_pool_size && distinct_sender_count(deps) >= minimum_pool_size) {
        None
    } else {
        let token_in = deps[0].token_in;
        let token_out = deps[0].token_out;
        if !pair_matches(pair, token_in, token_out) {
            Some(Err(BatcherError::PairNotFound))
        } else {
            let rio = oriented_reserves(pair, token_in);
            let cands = candidates_spec(deps, token_in, token_out, now, cap);
            if cands.len() == 0 {
                Some(Err(BatcherError::InvalidInput))
            } else {
                Some(descend(d, stable_sort_spec(cands), stable_sort_spec(cands).len() as int,
                    minimum_pool_size, rio.0, rio.1))
            }
        }
    }
}

/// The set that a settlement of size `k` over `deps` retires: the first
/// `k` of the sorted candidates.
pub open spec fn settled_set_spec(d: Denomination, deps: Seq<Deposit>, cap: int,
    pair: PairView, now: u64, k: int) -> Seq<Deposit>
{
    let token_in = deps[0].token_in;
    let token_out = deps[0].token_out;
    stable_sort_spec(candidates_spec(deps, token_in, token_out, now, cap)).take(k)
}

/// The deposits a settlement of size `k` leaves in the pool: exactly those
/// whose nullifier was not settled, in their original order.
pub open spec fn kept_after_settle(d: Denomination, deps: Seq<Deposit>, cap: int,
    pair: PairView, now: u64, k: int) -> Seq<Deposit>
{
    deps.filter(keeps(settled_nullifiers_spec(settled_set_spec(d, deps, cap, pair, now, k))))
}

/// The settlement plan of a settled set of size `k` over `deps`: the
/// aggregated custody transfer into the pair, the one-sided swap back to
/// the mixer, and one equal payout per participant — every payout the same
/// amount, their sum `k` shares, never more than the swap's total output.
pub open spec fn settled_plan_ok(d: Denomination, deps: Seq<Deposit>, cap: int,
    pair: PairView, contract_address: Address, now: u64, k: int, plan: SettlementPlan) -> bool
{
    let token_in = deps[0].token_in;
    let token_out = deps[0].token_out;
    let rio = oriented_reserves(pair, token_in);
    let sel = settled_set_spec(d, deps, cap, pair, now, k);
    let info = payout_info_spec(d, sel, rio.0, rio.1);
    &&& plan.token_in == token_in
    &&& plan.token_out == token_out
    &&& plan.pair_transfer == (Transfer {
        token: token_in,
        from: contract_address,
        to: pair.pair_address,
        amount: info.total_input_amount,
    })
    &&& plan.swap_call == (if pair.token_0 == token_in {
        SwapCall {
            pair: pair.pair_address,
            amount_0_out: 0,
            amount_1_out: info.total_output_amount,
            to: contract_address,
        }
    } else {
        SwapCall {
            pair: pair.pair_address,
            amount_0_out: info.total_output_amount,
            amount_1_out: 0,
            to: contract_address,
        }
    })
    &&& plan.payouts@.len() == k
    &&& forall|i: int| 0 <= i < k
        ==> plan.payouts@[i] == (Transfer {
            token: token_out,
            from: contract_address,
            to: sel[i].recipient_address,
            amount: info.equal_payout_amount,
        })
    &&& sum_amounts(plan.payouts@) == k * info.equal_payout_amount
    &&& k * info.equal_payout_amount <= info.total_output_amount
}

/// The full result of a settled mixing of size `k`: the anonymity set, the
/// per-participant amounts, the recorded fees of the settled set, and the
/// settlement plan.
pub open spec fn settled_mix_result_ok(d: Denomination, deps: Seq<Deposit>, cap: int,
    pair: PairView, contract_address: Address, now: u64, k: int, m: MixResult) -> bool
{
    let token_in = deps[0].token_in;
    let rio = oriented_reserves(pair, token_in);
    let sel = settled_set_spec(d, deps, cap, pair, now, k);
    let info = payout_info_spec(d, sel, rio.0, rio.1);
    &&& m.success
    &&& m.anonymity_set_size as int == k
    &&& m.mixed_amounts@.len() == k
    &&& forall|i: int| 0 <= i < k ==> m.mixed_amounts@[i] == info.equal_payout_amount
    &&& m.gas_used == 25_000 + k * 8_000 + 5_000 + 3_000
    &&& m.fees_paid == sum_fees(sel)
    &&& m.settlement matches Some(plan)
        && settled_plan_ok(d, deps, cap, pair, contract_address, now, k, plan)
}

/// Appending one deposit extends the fee sum by its fee.
pub proof fn lemma_sum_fees_take_step(s: Seq<Deposit>, i: int)
    requires
        0 <= i < s.len(),
    ensures
        sum_fees(s.take(i + 1)) == sum_fees(s.take(i)) + s[i].fee_paid,
{
    assert(s.take(i + 1).drop_last() =~= s.take(i));
    assert(s.take(i + 1).last() == s[i]);
}

/// Appending one transfer extends the amount sum by its amount.
pub proof fn lemma_sum_amounts_push(s: Seq<Transfer>, t: Transfer)
    ensures
        sum_amounts(s.push(t)) == sum_amounts(s) + t.amount,
{
    assert(s.push(t).drop_last() =~= s);
    assert(s.push(t).last() == t);
}

/// A filtered sequence holds only elements of the original, keeps their
/// nullifiers pairwise distinct, and keeps every element's predicate.
pub proof fn lemma_filter_keeps_distinct(s: Seq<Deposit>, pred: spec_fn(Deposit) -> bool)
    ensures
        forall|x: Deposit| #[trigger] s.filter(pred).contains(x) ==> s.contains(x),
        nullifiers_distinct(s) ==> nullifiers_distinct(s.filter(pred)),
    decreases s.len(),
{
    reveal(Seq::filter);
    if s.len() > 0 {
        lemma_filter_keeps_distinct(s.drop_last(), pred);
        let dl = s.drop_last();
        assert forall|x: Deposit| #[trigger] s.filter(pred).contains(x)
            implies s.contains(x) by {
            if pred(s.last()) && x == s.last() {
                assert(s[s.len() - 1] == x);
            } else {
                assert(s.filter(pred) == if pred(s.last()) {
                    dl.filter(pred).push(s.last())
                } else {
                    dl.filter(pred)
                });
                if dl.filter(pred).contains(x) {
                    assert(dl.contains(x));
                    let i = choose|i: int| 0 <= i < dl.len() && dl[i] == x;
                    assert(s[i] == x);
                } else {
                    assert(pred(s.last()) && x == s.last());
                }
            }
        }
        if nullifiers_distinct(s) {
            assert forall|i: int, j: int|
                0 <= i < j < dl.len() implies dl[i].nullifier != dl[j].nullifier by {
                assert(s[i] == dl[i] && s[j] == dl[j]);
            }
            let f = s.filter(pred);
            let fdl = dl.filter(pred);
            assert forall|i: int, j: int|
                0 <= i < j < f.len() implies f[i].nullifier != f[j].nullifier by {
                if pred(s.last()) && j == f.len() - 1 && f == fdl.push(s.last()) {
                    assert(f[i] == fdl[i]);
                    assert(fdl.contains(fdl[i]));
                    assert(dl.contains(fdl[i]));
                    let di = choose|di: int| 0 <= di < dl.len() && dl[di] == fdl[i];
                    assert(s[di] == fdl[i]);
                    assert(s[di].nullifier != s[s.len() - 1].nullifier);
                } else {
                    assert(f[i] == fdl[i] && f[j] == fdl[j]);
                }
            }
        }
    }
}

/// `v` holds `t`.
fn tag_list_contains(v: &Vec<Bytes32>, t: Bytes32) -> (r: bool)
    ensures
        r == v@.contains(t),
{
    let n = v.len();
    let mut i: usize = 0;
    while i < n
        invariant
            n == v@.len(),
            0 <= i <= n,
            forall|j: int| 0 <= j < i ==> v@[j] != t,
        decreases n - i,
    {
        if v[i] == t {
            return true;
        }
        i = i + 1;
    }
    false
}

/// The number of distinct sender addresses among `deposits`.
fn count_distinct_senders(deposits: &Vec<Deposit>) -> (n: usize)
    ensures
        n == distinct_sender_count(deposits@),
{
    let ghost s = deposits@;
    let len = deposits.len();
    let mut count: usize = 0;
    let mut i: usize = 0;
    while i < len
        invariant
            s == deposits@,
            len == s.len(),
            0 <= i <= len,
            count <= i,
            count == distinct_sender_count(s.take(i as int)),
        decreases len - i,
    {
        let sender = deposits[i].sender_address;
        let mut seen = false;
        let mut j: usize = 0;
        while j < i
            invariant
                s == deposits@,
                i <= s.len(),
                sender == s[i as int].sender_address,
                0 <= j <= i,
                seen <==> (exists|q: int| 0 <= q < j
                    && (#[trigger] s[q]).sender_address == sender),
            decreases i - j,
        {
            if deposits[j].sender_address == sender {
                seen = true;
            }
            j = j + 1;
        }
        proof {
            let t = s.take(i as int + 1);
            assert(t.drop_last() =~= s.take(i as int));
            assert(t.last() == s[i as int]);
            assert forall|q: int| 0 <= q < t.len() - 1
                implies (#[trigger] t[q]).sender_address == s[q].sender_address by {}
            if seen {
                let q = choose|q: int| 0 <= q < i
                    && (#[trigger] s[q]).sender_address == sender;
                assert(t[q].sender_address == t.last().sender_address);
            } else {
                assert forall|q: int| 0 <= q < t.len() - 1
                    implies (#[trigger] t[q]).sender_address != t.last().sender_address by {
                    assert(s[q].sender_address != sender);
                }
            }
        }
        if !seen {
            count = count + 1;
        }
        i = i + 1;
    }
    proof {
        assert(s.take(len as int) =~= s);
    }
    count
}

impl CoinJoinMixer {
    /// Execute mixing for one denomination against the live pair view.
    ///
    /// Blocked (not an error) until the pool holds at least
    /// `minimum_pool_size` deposits from as many distinct senders. Once
    /// open, the pending deposits of the first pending deposit's token
    /// pair, not yet expired, capped at `max_deposits` (the pool maximum by
    /// default), go through the descending-size selection; the settled set
    /// is removed from the pool in place, and the outward transfers come
    /// back in the result's settlement plan.
    #[verifier::rlimit(100)]
    pub fn execute_mixing(
        &mut self,
        denomination: Denomination,
        max_deposits: Option<u32>,
        pair: &PairView,
        contract_address: Address,
        now: u64,
    ) -> (r: Result<MixResult, BatcherError>)
        requires
            old(self).wf(),
        ensures
            final(self).wf(),
            !old(self).coinjoin_enabled ==> ({
                &&& *final(self) == *old(self)
                &&& r matches Err(e) && e == BatcherError::InvalidInput
            }),
            ({
                let pool0 = old(self).pool_spec(denomination);
                let cap = cap_spec(max_deposits, pool0.maximum_pool_size);
                old(self).coinjoin_enabled ==> (match mix_outcome(denomination,
                    pool0.deposits@, pool0.minimum_pool_size as int, cap, *pair, now) {
                    None => ({
                        &&& *final(self) == *old(self)
                        &&& r matches Ok(m) && not_ready_result(m)
                    }),
                    Some(Err(e)) => ({
                        &&& *final(self) == *old(self)
                        &&& r matches Err(e2) && e2 == e
                    }),
                    Some(Ok(k)) => ({
                        &&& r matches Ok(m) && settled_mix_result_ok(denomination,
                            pool0.deposits@, cap, *pair, contract_address, now, k, m)
                        &&& final(self).pool_spec(denomination).deposits@
                            == kept_after_settle(denomination, pool0.deposits@, cap, *pair,
                                now, k)
                        &&& final(self).pool_spec(denomination).same_config(pool0)
                        &&& final(self).pool_spec(denomination).withdrawals@
                            == pool0.withdrawals@
                        &&& final(self).entry_spec(denomination).total_deposits
                            == old(self).entry_spec(denomination).total_deposits
                        &&& final(self).entry_spec(denomination).total_withdrawals
                            == old(self).entry_spec(denomination).total_withdrawals
                        &&& forall|d2: Denomination| d2 != denomination
                            ==> #[trigger] final(self).entry_spec(d2)
                                == old(self).entry_spec(d2)
                        &&& final(self).used_nullifiers@ == old(self).used_nullifiers@
                        &&& final(self).coinjoin_enabled == old(self).coinjoin_enabled
                    }),
                })
            }),
    {
        if !self.coinjoin_enabled {
            return Err(BatcherError::InvalidInput);
        }

        let ghost pool0 = self.pool_spec(denomination);

        // The unique-sender gate, checked before anything else.
        let (pool_len, minimum, maximum) = {
            let pool = self.get_pool(denomination);
            (pool.deposits.len(), pool.minimum_pool_size, pool.maximum_pool_size)
        };
        let unique_senders = {
            let pool = self.get_pool(denomination);
            count_distinct_senders(&pool.deposits)
        };
        if pool_len < minimum as usize || unique_senders < minimum as usize {
            return Ok(MixResult {
                success: false,
                mixed_amounts: Vec::new(),
                gas_used: 0,
                anonymity_set_size: 0,
                fees_paid: 0,
                settlement: None,
            });
        }

        // The settled token pair is the first pending deposit's.
        let (token_in, token_out) = {
            let pool = self.get_pool(denomination);
            (pool.deposits[0].token_in, pool.deposits[0].token_out)
        };
        let is_token_in_token_0 = pair.token_0 == token_in;
        if !((pair.token_0 == token_in && pair.token_1 == token_out)
            || (pair.token_1 == token_in && pair.token_0 == token_out)) {
            return Err(BatcherError::PairNotFound);
        }
        let (reserve_in, reserve_out) = if is_token_in_token_0 {
            (pair.reserve_0, pair.reserve_1)
        } else {
            (pair.reserve_1, pair.reserve_0)
        };

        // Candidates: same pair, not expired, first `cap` of them.
        let cap_limit = match max_deposits {
            Some(c) => c,
            None => maximum,
        };
        let cap = cap_limit as usize;
        let candidates = {
            let pool = self.get_pool(denomination);
            Self::build_candidates(&pool.deposits, token_in, token_out, now, cap)
        };
        let ghost cands = candidates_spec(pool0.deposits@, token_in, token_out, now,
            cap as int);

        // Select the largest qualifying set.
        let selected = match self.find_optimal_participant_set(denomination, &candidates,
            reserve_in, reserve_out) {
            Ok(sel) => sel,
            Err(e) => {
                return Err(e);
            },
        };
        let ghost sorted = stable_sort_spec(cands);
        let ghost k = selected@.len() as int;
        let ghost sel = sorted.take(k);
        proof {
            lemma_selected_set_maximal(denomination, sorted, sorted.len() as int,
                pool0.minimum_pool_size as int, reserve_in as int, reserve_out as int, k);
            crate::selector::lemma_stable_sort_sorted(cands);
        }

        // The payout of the selected set is defined, by selection.
        let info = match Self::calculate_equal_payout(denomination, &selected, reserve_in,
            reserve_out) {
            Ok(p) => p,
            Err(e) => {
                proof {
                    assert(false);
                }
                return Err(e);
            },
        };

        // Every selected deposit came from the pool, so its recorded fee is
        // bounded by the pool invariant.
        proof {
            lemma_selected_from_pool(pool0.deposits@, token_in, token_out, now, cap as int, k);
            assert forall|i: int| 0 <= i < k
                implies 0 <= (#[trigger] sel[i]).fee_paid <= 1_000_000_000_000_000 by {
                assert(sel.contains(sel[i]));
                assert(pool0.deposits@.contains(sel[i]));
                let q = choose|q: int| 0 <= q < pool0.deposits@.len()
                    && pool0.deposits@[q] == sel[i];
                assert(0 <= pool0.deposits@[q].fee_paid <= 1_000_000_000_000_000);
            }
        }

        // Build the payout transfers, the per-participant amounts, the
        // settled-nullifier list and the fee total.
        let count = selected.len();
        let artifacts = Self::build_payout_artifacts(&selected, info.equal_payout_amount,
            token_out, contract_address);
        proof {
            vstd::arithmetic::div_mod::lemma_fundamental_div_mod(
                info.total_output_amount as int, k);
        }

        // Prune the pool: keep exactly the deposits whose nullifier was not
        // settled, in their original order.
        let remaining = {
            let pool = self.get_pool(denomination);
            Self::prune_deposits(&pool.deposits, &artifacts.settled_list)
        };
        match denomination {
            Denomination::Small => Self::replace_deposits(&mut self.small, remaining),
            Denomination::Medium => Self::replace_deposits(&mut self.medium, remaining),
            Denomination::Large => Self::replace_deposits(&mut self.large, remaining),
            Denomination::ExtraLarge => Self::replace_deposits(&mut self.extra_large, remaining),
        }
        proof {
            lemma_settle_preserves_wf(*old(self), *self, denomination,
                settled_nullifiers_spec(sel));
        }

        let swap_call = if is_token_in_token_0 {
            SwapCall {
                pair: pair.pair_address,
                amount_0_out: 0,
                amount_1_out: info.total_output_amount,
                to: contract_address,
            }
        } else {
            SwapCall {
                pair: pair.pair_address,
                amount_0_out: info.total_output_amount,
                amount_1_out: 0,
                to: contract_address,
            }
        };
        let plan = SettlementPlan {
            token_in,
            token_out,
            pair_transfer: Transfer {
                token: token_in,
                from: contract_address,
                to: pair.pair_address,
                amount: info.total_input_amount,
            },
            swap_call,
            payouts: artifacts.payouts,
        };
        Ok(MixResult {
            success: true,
            mixed_amounts: artifacts.mixed_amounts,
            gas_used: Self::estimate_mixing_gas_cost(count as u32),
            anonymity_set_size: count as u32,
            fees_paid: artifacts.total_fees,
            settlement: Some(plan),
        })
    }

    /// The candidates of one settlement, as a vector: the pending deposits
    /// filtered to the settled pair and to unexpired entries, the first
    /// `cap` of them, in insertion order.
    fn build_candidates(deposits: &Vec<Deposit>, token_in: Address, token_out: Address,
        now: u64, cap: usize) -> (r: Vec<Deposit>)
        ensures
            r@ == candidates_spec(deposits@, token_in, token_out, now, cap as int),
    {
        let ghost pred = is_candidate(token_in, token_out, now);
        let n = deposits.len();
        let mut filtered: Vec<Deposit> = Vec::new();
        let mut i: usize = 0;
        while i < n
            invariant
                pred == is_candidate(token_in, token_out, now),
                n == deposits@.len(),
                0 <= i <= n,
                filtered@ == deposits@.take(i as int).filter(pred),
            decreases n - i,
        {
            let d = deposits[i];
            proof {
                reveal(Seq::filter);
                let t = deposits@.take(i as int + 1);
                assert(t.drop_last() =~= deposits@.take(i as int));
                assert(t.last() == deposits@[i as int]);
            }
            if d.token_in == token_in && d.token_out == token_out
                && d.expiry_timestamp > now {
                filtered.push(d);
            }
            i = i + 1;
        }
        proof {
            assert(deposits@.take(n as int) =~= deposits@);
        }
        if filtered.len() > cap {
            let mut head: Vec<Deposit> = Vec::new();
            let mut j: usize = 0;
            while j < cap
                invariant
                    cap < filtered@.len(),
                    0 <= j <= cap,
                    head@ == filtered@.take(j as int),
                decreases cap - j,
            {
                head.push(filtered[j]);
                proof {
                    assert(filtered@.take(j as int + 1)
                        =~= filtered@.take(j as int).push(filtered@[j as int]));
                }
                j = j + 1;
            }
            head
        } else {
            filtered
        }
    }

    /// The per-participant outputs of one settled set: one equal payout
    /// transfer and one reported amount per participant, the settled
    /// nullifiers, and the total of the recorded mixer fees.
    fn build_payout_artifacts(selected: &Vec<Deposit>, share: i128, token_out: Address,
        contract_address: Address) -> (r: PayoutArtifacts)
        requires
            selected@.len() <= 4_294_967_295,
            forall|q: int| 0 <= q < selected@.len()
                ==> 0 <= (#[trigger] selected@[q]).fee_paid <= 1_000_000_000_000_000,
        ensures
            r.payouts@.len() == selected@.len(),
            forall|q: int| 0 <= q < selected@.len() ==> r.payouts@[q] == (Transfer {
                token: token_out,
                from: contract_address,
                to: selected@[q].recipient_address,
                amount: share,
            }),
            sum_amounts(r.payouts@) == selected@.len() * share,
            r.mixed_amounts@.len() == selected@.len(),
            forall|q: int| 0 <= q < selected@.len() ==> r.mixed_amounts@[q] == share,
            r.settled_list@ == settled_nullifiers_spec(selected@),
            r.total_fees == sum_fees(selected@),
    {
        let ghost sel = selected@;
        let count = selected.len();
        let mut payouts: Vec<Transfer> = Vec::new();
        let mut mixed_amounts: Vec<i128> = Vec::new();
        let mut settled_list: Vec<Bytes32> = Vec::new();
        let mut total_fees: i128 = 0;
        let mut i: usize = 0;
        while i < count
            invariant
                selected@ == sel,
                count == sel.len(),
                count <= 4_294_967_295,
                forall|q: int| 0 <= q < sel.len()
                    ==> 0 <= (#[trigger] sel[q]).fee_paid <= 1_000_000_000_000_000,
                0 <= i <= count,
                payouts@.len() == i,
                forall|q: int| 0 <= q < i ==> payouts@[q] == (Transfer {
                    token: token_out,
                    from: contract_address,
                    to: sel[q].recipient_address,
                    amount: share,
                }),
                sum_amounts(payouts@) == i * share,
                mixed_amounts@.len() == i,
                forall|q: int| 0 <= q < i ==> mixed_amounts@[q] == share,
                settled_list@.len() == i,
                forall|q: int| 0 <= q < i ==> settled_list@[q] == sel[q].nullifier,
                total_fees == sum_fees(sel.take(i as int)),
                0 <= total_fees <= i * 1_000_000_000_000_000,
            decreases count - i,
        {
            let dep = selected[i];
            let t = Transfer {
                token: token_out,
                from: contract_address,
                to: dep.recipient_address,
                amount: share,
            };
            proof {
                lemma_sum_amounts_push(payouts@, t);
                lemma_sum_fees_take_step(sel, i as int);
                assert((i as int + 1) * share == i as int * share + share)
                    by (nonlinear_arith);
                assert((i as int + 1) * 1_000_000_000_000_000
                    == i as int * 1_000_000_000_000_000 + 1_000_000_000_000_000)
                    by (nonlinear_arith);
            }
            payouts.push(t);
            mixed_amounts.push(share);
            settled_list.push(dep.nullifier);
            total_fees = total_fees + dep.fee_paid;
            i = i + 1;
        }
        proof {
            assert(sel.take(count as int) =~= sel);
            assert(settled_list@ =~= settled_nullifiers_spec(sel));
        }
        PayoutArtifacts {
            payouts,
            mixed_amounts,
            settled_list,
            total_fees,
        }
    }

    /// The deposits that stay after a settlement: exactly those whose
    /// nullifier is not in `settled_list`, in their original order.
    fn prune_deposits(deposits: &Vec<Deposit>, settled_list: &Vec<Bytes32>)
        -> (r: Vec<Deposit>)
        ensures
            r@ == deposits@.filter(keeps(settled_list@)),
    {
        let ghost settled = settled_list@;
        let n = deposits.len();
        let mut remaining: Vec<Deposit> = Vec::new();
        let mut j: usize = 0;
        while j < n
            invariant
                settled == settled_list@,
                n == deposits@.len(),
                0 <= j <= n,
                remaining@ == deposits@.take(j as int).filter(keeps(settled)),
            decreases n - j,
        {
            let d = deposits[j];
            proof {
                reveal(Seq::filter);
                let t = deposits@.take(j as int + 1);
                assert(t.drop_last() =~= deposits@.take(j as int));
                assert(t.last() == deposits@[j as int]);
            }
            if !tag_list_contains(settled_list, d.nullifier) {
                remaining.push(d);
            }
            j = j + 1;
        }
        proof {
            assert(deposits@.take(n as int) =~= deposits@);
        }
        remaining
    }

    fn replace_deposits(e: &mut PoolEntry, deposits: Vec<Deposit>)
        ensures
            final(e).pool.deposits@ == deposits@,
            final(e).pool.same_config(old(e).pool),
            final(e).pool.withdrawals@ == old(e).pool.withdrawals@,
            final(e).total_deposits == old(e).total_deposits,
            final(e).total_withdrawals == old(e).total_withdrawals,
    {
        e.pool.deposits = deposits;
    }
}

/// The artifacts of one settled set, built in one pass over it.
struct PayoutArtifacts {
    payouts: Vec<Transfer>,
    mixed_amounts: Vec<i128>,
    settled_list: Vec<Bytes32>,
    total_fees: i128,
}

/// Pruning the settled deposits out of one pool keeps the whole mixer
/// state well-formed: the kept deposits are a subsequence of the pool's,
/// so their nullifiers stay distinct, recorded, and fee-bounded.
proof fn lemma_settle_preserves_wf(o: CoinJoinMixer, f: CoinJoinMixer, d: Denomination,
    settled: Seq<Bytes32>)
    requires
        o.wf(),
        f.pool_spec(d).deposits@ == o.pool_spec(d).deposits@.filter(keeps(settled)),
        f.pool_spec(d).same_config(o.pool_spec(d)),
        forall|d2: Denomination| d2 != d ==> #[trigger] f.entry_spec(d2) == o.entry_spec(d2),
        f.used_nullifiers@ == o.used_nullifiers@,
    ensures
        f.wf(),
{
    let pool0 = o.pool_spec(d);
    lemma_filter_keeps_distinct(pool0.deposits@, keeps(settled));
    assert forall|d2: Denomination, q: int|
        0 <= q < f.pool_spec(d2).deposits@.len()
            implies f.nullifier_used_spec(
                #[trigger] f.pool_spec(d2).deposits@[q].nullifier) by {
        if d2 == d {
            let kept = f.pool_spec(d2).deposits@;
            assert(kept.contains(kept[q]));
            assert(pool0.deposits@.contains(kept[q]));
            let w = choose|w: int| 0 <= w < pool0.deposits@.len()
                && pool0.deposits@[w] == kept[q];
            assert(o.nullifier_used_spec(pool0.deposits@[w].nullifier));
        } else {
            assert(o.pool_spec(d2).deposits@[q].nullifier
                == f.pool_spec(d2).deposits@[q].nullifier);
            assert(o.nullifier_used_spec(o.pool_spec(d2).deposits@[q].nullifier));
        }
    }
    assert forall|d2: Denomination, q: int|
        0 <= q < f.pool_spec(d2).deposits@.len()
            implies 0 <= (#[trigger] f.pool_spec(d2).deposits@[q]).fee_paid
                <= 1_000_000_000_000_000 by {
        if d2 == d {
            let kept = f.pool_spec(d2).deposits@;
            assert(kept.contains(kept[q]));
            assert(pool0.deposits@.contains(kept[q]));
            let w = choose|w: int| 0 <= w < pool0.deposits@.len()
                && pool0.deposits@[w] == kept[q];
            assert(0 <= pool0.deposits@[w].fee_paid <= 1_000_000_000_000_000);
        }
    }
    assert forall|da: Denomination, db: Denomination, q1: int, q2: int|
        #![trigger f.pool_spec(da).deposits@[q1], f.pool_spec(db).deposits@[q2]]
        da != db
            && 0 <= q1 < f.pool_spec(da).deposits@.len()
            && 0 <= q2 < f.pool_spec(db).deposits@.len()
            implies f.pool_spec(da).deposits@[q1].nullifier
                != f.pool_spec(db).deposits@[q2].nullifier by {
        let xa = f.pool_spec(da).deposits@[q1];
        let xb = f.pool_spec(db).deposits@[q2];
        if da == d {
            assert(f.pool_spec(da).deposits@.contains(xa));
            assert(pool0.deposits@.contains(xa));
            let w = choose|w: int| 0 <= w < pool0.deposits@.len()
                && pool0.deposits@[w] == xa;
            assert(o.pool_spec(da).deposits@[w] == xa);
            assert(o.pool_spec(db).deposits@[q2] == xb);
        } else if db == d {
            assert(f.pool_spec(db).deposits@.contains(xb));
            assert(pool0.deposits@.contains(xb));
            let w = choose|w: int| 0 <= w < pool0.deposits@.len()
                && pool0.deposits@[w] == xb;
            assert(o.pool_spec(db).deposits@[w] == xb);
            assert(o.pool_spec(da).deposits@[q1] == xa);
        } else {
            assert(o.pool_spec(da).deposits@[q1] == xa);
            assert(o.pool_spec(db).deposits@[q2] == xb);
        }
    }
    assert(f.small.pool.wf(Denomination::Small)) by {
        if d != Denomination::Small {
            assert(f.entry_spec(Denomination::Small) == o.entry_spec(Denomination::Small));
        }
    }
    assert(f.medium.pool.wf(Denomination::Medium)) by {
        if d != Denomination::Medium {
            assert(f.entry_spec(Denomination::Medium) == o.entry_spec(Denomination::Medium));
        }
    }
    assert(f.large.pool.wf(Denomination::Large)) by {
        if d != Denomination::Large {
            assert(f.entry_spec(Denomination::Large) == o.entry_spec(Denomination::Large));
        }
    }
    assert(f.extra_large.pool.wf(Denomination::ExtraLarge)) by {
        if d != Denomination::ExtraLarge {
            assert(f.entry_spec(Denomination::ExtraLarge)
                == o.entry_spec(Denomination::ExtraLarge));
        }
    }
}

/// Every deposit the selector picked is one of the pool's pending
/// deposits: selection only sorts, filters and truncates.
pub proof fn lemma_selected_from_pool(deps: Seq<Deposit>, token_in: Address,
    token_out: Address, now: u64, cap: int, k: int)
    requires
        0 <= cap,
        0 <= k <= stable_sort_spec(candidates_spec(deps, token_in, token_out, now, cap)).len(),
    ensures
        forall|x: Deposit|
            #[trigger] stable_sort_spec(candidates_spec(deps, token_in, token_out, now, cap))
                .take(k).contains(x) ==> deps.contains(x),
{
    let filt = deps.filter(is_candidate(token_in, token_out, now));
    let cands = candidates_spec(deps, token_in, token_out, now, cap);
    let sorted = stable_sort_spec(cands);
    crate::selector::lemma_stable_sort_multiset(cands);
    crate::selector::lemma_stable_sort_sorted(cands);
    sorted.to_multiset_ensures();
    cands.to_multiset_ensures();
    lemma_filter_keeps_distinct(deps, is_candidate(token_in, token_out, now));
    assert forall|x: Deposit| #[trigger] sorted.take(k).contains(x)
        implies deps.contains(x) by {
        let i = choose|i: int| 0 <= i < k && sorted.take(k)[i] == x;
        assert(sorted[i] == x);
        assert(sorted.contains(x));
        assert(sorted.to_multiset().count(x) > 0);
        assert(cands.to_multiset().count(x) > 0);
        assert(cands.contains(x));
        if filt.len() <= cap {
            assert(filt.contains(x));
        } else {
            assert(cands == filt.take(cap));
            let q = choose|q: int| 0 <= q < cands.len() && cands[q] == x;
            assert(filt[q] == x);
            assert(filt.contains(x));
        }
    }
}

} // verus!
