//! The participant-set selector.
//!
//! Candidates are sorted ascending by their `min_amount_out` floor (stable,
//! ties broken by insertion order), then set sizes are tested from the
//! largest down to the pool minimum. The first qualifying size is the
//! maximum one, so the selector returns the largest set whose equal share
//! meets every chosen participant's floor and slippage ceiling.

use vstd::prelude::*;
use vstd::multiset::Multiset;
use crate::coinjoin::{CoinJoinMixer, Deposit};
use crate::denomination::Denomination;
use crate::error::BatcherError;
use crate::payout::{payout_ok, payout_info_spec, equal_share_spec, slippage_bps_spec};

verus! {

/// `s` is ordered ascending by the `min_amount_out` floor.
pub open spec fn sorted_by_min(s: Seq<Deposit>) -> bool {
    forall|i: int, j: int| 0 <= i < j < s.len()
        ==> (#[trigger] s[i]).min_amount_out <= (#[trigger] s[j]).min_amount_out
}

/// The first position of `s` whose floor exceeds `key`, or `s.len()`.
pub open spec fn first_gt_pos(s: Seq<Deposit>, key: i128) -> int
    decreases s.len(),
{
    if s.len() == 0 {
        0
    } else if s[0].min_amount_out > key {
        0
    } else {
        1 + first_gt_pos(s.drop_first(), key)
    }
}

/// `d` inserted after every element of `s` whose floor does not exceed
/// `d`'s own; on a sorted `s` this keeps the order and, among equal floors,
/// puts `d` last.
pub open spec fn sorted_insert(s: Seq<Deposit>, d: Deposit) -> Seq<Deposit> {
    s.insert(first_gt_pos(s, d.min_amount_out), d)
}

/// The stable ascending sort of `s` by the `min_amount_out` floor: each
/// element in turn is inserted after its equals.
pub open spec fn stable_sort_spec(s: Seq<Deposit>) -> Seq<Deposit>
    decreases s.len(),
{
    if s.len() == 0 {
        Seq::empty()
    } else {
        sorted_insert(stable_sort_spec(s.drop_last()), s.last())
    }
}

/// `first_gt_pos` names a valid position: everything before it has a floor
/// of at most `key`, and the element at it (if any) exceeds `key`.
pub proof fn lemma_first_gt_pos(s: Seq<Deposit>, key: i128)
    ensures
        0 <= first_gt_pos(s, key) <= s.len(),
        forall|j: int| 0 <= j < first_gt_pos(s, key) ==> (#[trigger] s[j]).min_amount_out <= key,
        first_gt_pos(s, key) < s.len() ==> s[first_gt_pos(s, key)].min_amount_out > key,
    decreases s.len(),
{
    if s.len() > 0 && !(s[0].min_amount_out > key) {
        lemma_first_gt_pos(s.drop_first(), key);
        assert forall|j: int| 0 <= j < first_gt_pos(s, key)
            implies (#[trigger] s[j]).min_amount_out <= key by {
            if j > 0 {
                assert(s.drop_first()[j - 1] == s[j]);
            }
        }
        if first_gt_pos(s, key) < s.len() {
            assert(s.drop_first()[first_gt_pos(s, key) - 1] == s[first_gt_pos(s, key)]);
        }
    }
}

/// Inserting into a sorted sequence at `first_gt_pos` keeps it sorted.
pub proof fn lemma_sorted_insert(s: Seq<Deposit>, d: Deposit)
    requires
        sorted_by_min(s),
    ensures
        sorted_by_min(sorted_insert(s, d)),
        sorted_insert(s, d).len() == s.len() + 1,
{
    lemma_first_gt_pos(s, d.min_amount_out);
    let p = first_gt_pos(s, d.min_amount_out);
    s.insert_ensures(p, d);
    let t = s.insert(p, d);
    assert forall|i: int, j: int| 0 <= i < j < t.len()
        implies (#[trigger] t[i]).min_amount_out <= (#[trigger] t[j]).min_amount_out by {
        if i < p && j < p {
            assert(t[i] == s[i] && t[j] == s[j]);
        } else if i < p && j == p {
            assert(t[i] == s[i]);
        } else if i < p && j > p {
            assert(t[i] == s[i] && t[j] == s[j - 1]);
            if j - 1 >= p {
                assert(s[p].min_amount_out > d.min_amount_out);
            }
        } else if i == p && j > p {
            assert(t[j] == s[j - 1]);
            assert(s[j - 1].min_amount_out >= s[p].min_amount_out);
        } else {
            assert(t[i] == s[i - 1] && t[j] == s[j - 1]);
        }
    }
}

/// The stable sort of any sequence is sorted and has the same length.
pub proof fn lemma_stable_sort_sorted(s: Seq<Deposit>)
    ensures
        sorted_by_min(stable_sort_spec(s)),
        stable_sort_spec(s).len() == s.len(),
    decreases s.len(),
{
    if s.len() > 0 {
        lemma_stable_sort_sorted(s.drop_last());
        lemma_sorted_insert(stable_sort_spec(s.drop_last()), s.last());
    }
}

/// The stable sort of any sequence holds exactly the same deposits, with
/// multiplicity.
pub proof fn lemma_stable_sort_multiset(s: Seq<Deposit>)
    ensures
        stable_sort_spec(s).to_multiset() == s.to_multiset(),
    decreases s.len(),
{
    if s.len() == 0 {
        assert(stable_sort_spec(s) =~= s);
    } else {
        lemma_stable_sort_multiset(s.drop_last());
        lemma_stable_sort_sorted(s.drop_last());
        let t = stable_sort_spec(s.drop_last());
        let d = s.last();
        lemma_first_gt_pos(t, d.min_amount_out);
        let p = first_gt_pos(t, d.min_amount_out);
        t.insert_ensures(p, d);
        let u = t.insert(p, d);
        u.to_multiset_ensures();
        t.to_multiset_ensures();
        s.drop_last().to_multiset_ensures();
        assert(u.remove(p) =~= t);
        assert(u.remove(p).to_multiset() =~= u.to_multiset().remove(u[p]));
        assert(u[p] == d);
        assert(u.contains(d));
        assert(u.to_multiset().count(d) > 0);
        assert(u.to_multiset() =~= t.to_multiset().insert(d)) by {
            assert(t.to_multiset() =~= u.to_multiset().remove(d));
            assert forall|x: Deposit| u.to_multiset().count(x)
                == t.to_multiset().insert(d).count(x) by {
                if x == d {
                    assert(t.to_multiset().count(d) == u.to_multiset().count(d) - 1);
                } else {
                    assert(t.to_multiset().count(x) == u.to_multiset().count(x));
                }
            }
        }
        assert(s.drop_last().push(d) =~= s);
        assert(s.to_multiset() =~= s.drop_last().to_multiset().insert(d));
        assert(stable_sort_spec(s) == u);
    }
}

/// All deposits among the first `k` of `sorted` qualify: the equal share
/// meets each one's floor, and the realized slippage stays within each
/// one's ceiling.
pub open spec fn set_meets(d: Denomination, sorted: Seq<Deposit>, k: int, reserve_in: int,
    reserve_out: int) -> bool
{
    let share = equal_share_spec(d, k, reserve_in, reserve_out);
    let slip = slippage_bps_spec(sorted.take(k), share);
    forall|i: int| 0 <= i < k
        ==> share >= (#[trigger] sorted[i]).min_amount_out
            && slip <= sorted[i].max_slippage_bps
}

/// The descending-size search over the sorted candidates: the first size
/// `k` (from the top) whose payout is defined and whose first `k` deposits
/// all qualify; `InsufficientBalance` when no size from `m` up qualifies;
/// the payout error when a tested payout is undefined.
pub open spec fn descend(d: Denomination, sorted: Seq<Deposit>, k: int, m: int,
    reserve_in: int, reserve_out: int) -> Result<int, BatcherError>
    decreases k - m + 1,
{
    if k < m {
        Err(BatcherError::InsufficientBalance)
    } else if !payout_ok(d, sorted.take(k), reserve_in, reserve_out) {
        Err(BatcherError::InvalidInput)
    } else if set_meets(d, sorted, k, reserve_in, reserve_out) {
        Ok(k)
    } else {
        descend(d, sorted, k - 1, m, reserve_in, reserve_out)
    }
}

/// Maximality of the selected set: when the search returns size `k`, the
/// first `k` sorted deposits all qualify, and every larger size up to the
/// candidate count fails its own qualification.
pub proof fn lemma_selected_set_maximal(d: Denomination, sorted: Seq<Deposit>, n: int, m: int,
    reserve_in: int, reserve_out: int, k: int)
    requires
        descend(d, sorted, n, m, reserve_in, reserve_out) == Ok::<int, BatcherError>(k),
    ensures
        m <= k <= n,
        payout_ok(d, sorted.take(k), reserve_in, reserve_out),
        set_meets(d, sorted, k, reserve_in, reserve_out),
        forall|j: int| #![trigger sorted.take(j)] k < j <= n
            ==> payout_ok(d, sorted.take(j), reserve_in, reserve_out)
                && !set_meets(d, sorted, j, reserve_in, reserve_out),
    decreases n - m + 1,
{
    if n < m {
    } else if !payout_ok(d, sorted.take(n), reserve_in, reserve_out) {
    } else if set_meets(d, sorted, n, reserve_in, reserve_out) {
    } else {
        lemma_selected_set_maximal(d, sorted, n - 1, m, reserve_in, reserve_out, k);
        // The induction hypothesis, restated so its instances are at hand.
        assert(forall|j: int| k < j <= n - 1
            ==> payout_ok(d, sorted.take(j), reserve_in, reserve_out)
                && !set_meets(d, sorted, j, reserve_in, reserve_out));
        assert forall|j: int| k < j <= n
            implies payout_ok(d, sorted.take(j), reserve_in, reserve_out)
                && !set_meets(d, sorted, j, reserve_in, reserve_out) by {
            if j < n {
                assert(payout_ok(d, sorted.take(j), reserve_in, reserve_out)
                    && !set_meets(d, sorted, j, reserve_in, reserve_out));
            }
        }
    }
}

impl CoinJoinMixer {
    /// Sort deposits ascending by `min_amount_out`, stably: participants
    /// with the lowest requirements come first, ties keep insertion order.
    pub fn sort_deposits_by_min_amount(deposits: &mut Vec<Deposit>)
        ensures
            final(deposits)@ == stable_sort_spec(old(deposits)@),
    {
        let ghost orig = old(deposits)@;
        let n = deposits.len();
        let mut sorted: Vec<Deposit> = Vec::new();
        let mut i: usize = 0;
        while i < n
            invariant
                orig == deposits@,
                n == orig.len(),
                0 <= i <= n,
                sorted@ == stable_sort_spec(orig.take(i as int)),
                sorted_by_min(sorted@),
            decreases n - i,
        {
            let d = deposits[i];
            let key = d.min_amount_out;
            proof {
                lemma_first_gt_pos(sorted@, key);
            }
            let mut pos: usize = 0;
            while pos < sorted.len() && sorted[pos].min_amount_out <= key
                invariant
                    0 <= pos <= sorted@.len(),
                    forall|j: int| 0 <= j < pos
                        ==> (#[trigger] sorted@[j]).min_amount_out <= key,
                decreases sorted@.len() - pos,
            {
                pos = pos + 1;
            }
            proof {
                // Both the scan and `first_gt_pos` name the first position
                // whose floor exceeds the key, so they agree.
                let p = first_gt_pos(sorted@, key);
                if pos < p {
                    assert(sorted@[pos as int].min_amount_out <= key);
                }
                if p < pos {
                    assert(sorted@[p].min_amount_out <= key);
                }
                assert(pos == p);
                lemma_sorted_insert(sorted@, d);
                lemma_stable_sort_take_step(orig, i as int);
            }
            sorted.insert(pos, d);
            i = i + 1;
        }
        proof {
            assert(orig.take(n as int) =~= orig);
        }
        *deposits = sorted;
    }

    /// Find the optimal participant set by descending set-size search:
    /// the largest qualifying subset of `all_deposits`, every member of
    /// which keeps its floor and slippage constraints under the equal
    /// share. Fails with `InvalidInput` on an empty candidate list or an
    /// undefined payout, and with `InsufficientBalance` when no set of at
    /// least the pool minimum size qualifies.
    pub fn find_optimal_participant_set(
        &self,
        denomination: Denomination,
        all_deposits: &Vec<Deposit>,
        reserve_in: i128,
        reserve_out: i128,
    ) -> (r: Result<Vec<Deposit>, BatcherError>)
        ensures
            all_deposits@.len() == 0
                ==> r == Err::<Vec<Deposit>, BatcherError>(BatcherError::InvalidInput),
            all_deposits@.len() > 0 ==> ({
                let sorted = stable_sort_spec(all_deposits@);
                let m = self.pool_spec(denomination).minimum_pool_size as int;
                let outcome = descend(denomination, sorted, sorted.len() as int, m,
                    reserve_in as int, reserve_out as int);
                match r {
                    Ok(sel) => {
                        &&& outcome == Ok::<int, BatcherError>(sel@.len() as int)
                        &&& sel@ == sorted.take(sel@.len() as int)
                    },
                    Err(e) => outcome == Err::<int, BatcherError>(e),
                }
            }),
    {
        if all_deposits.is_empty() {
            return Err(BatcherError::InvalidInput);
        }
        let pool = self.get_pool(denomination);
        let m = pool.minimum_pool_size;

        // Stable-sort a copy of the candidates by their floors.
        let n = all_deposits.len();
        let mut sorted_deposits: Vec<Deposit> = Vec::new();
        let mut i: usize = 0;
        while i < n
            invariant
                n == all_deposits@.len(),
                0 <= i <= n,
                sorted_deposits@ == all_deposits@.take(i as int),
            decreases n - i,
        {
            sorted_deposits.push(all_deposits[i]);
            proof {
                assert(all_deposits@.take(i + 1) =~= all_deposits@.take(i as int).push(
                    all_deposits@[i as int]));
            }
            i = i + 1;
        }
        proof {
            assert(all_deposits@.take(n as int) =~= all_deposits@);
        }
        Self::sort_deposits_by_min_amount(&mut sorted_deposits);
        let ghost sorted = sorted_deposits@;
        proof {
            lemma_stable_sort_sorted(all_deposits@);
        }

        // Test set sizes from the largest down to the pool minimum.
        let ghost mi = m as int;
        let mut k: usize = n;
        loop
            invariant
                sorted_deposits@ == sorted,
                sorted == stable_sort_spec(all_deposits@),
                sorted.len() == n,
                n == all_deposits@.len(),
                n > 0,
                mi == m as int,
                mi == self.pool_spec(denomination).minimum_pool_size as int,
                0 <= k <= n,
                descend(denomination, sorted, n as int, mi, reserve_in as int,
                    reserve_out as int)
                    == descend(denomination, sorted, k as int, mi, reserve_in as int,
                        reserve_out as int),
            decreases k,
        {
            if k < m as usize || k == 0 {
                proof {
                    if k < mi {
                        assert(descend(denomination, sorted, k as int, mi, reserve_in as int,
                            reserve_out as int)
                            == Err::<int, BatcherError>(BatcherError::InsufficientBalance));
                    } else {
                        // Only reachable with `k == 0 >= m`; a zero-size
                        // candidate set never has a defined payout.
                        assert(!payout_ok(denomination, sorted.take(0), reserve_in as int,
                            reserve_out as int));
                        assert(descend(denomination, sorted, 0, mi, reserve_in as int,
                            reserve_out as int)
                            == Err::<int, BatcherError>(BatcherError::InvalidInput));
                    }
                }
                if k < m as usize {
                    return Err(BatcherError::InsufficientBalance);
                }
                return Err(BatcherError::InvalidInput);
            }

            // Candidate set: the first k sorted deposits.
            let mut candidate_set: Vec<Deposit> = Vec::new();
            let mut j: usize = 0;
            while j < k
                invariant
                    sorted_deposits@ == sorted,
                    0 <= j <= k <= sorted.len(),
                    candidate_set@ == sorted.take(j as int),
                decreases k - j,
            {
                candidate_set.push(sorted_deposits[j]);
                proof {
                    assert(sorted.take(j + 1) =~= sorted.take(j as int).push(sorted[j as int]));
                }
                j = j + 1;
            }

            let payout_info = match Self::calculate_equal_payout(denomination, &candidate_set,
                reserve_in, reserve_out) {
                Ok(p) => p,
                Err(e) => {
                    proof {
                        assert(!payout_ok(denomination, sorted.take(k as int),
                            reserve_in as int, reserve_out as int));
                        assert(descend(denomination, sorted, k as int, mi, reserve_in as int,
                            reserve_out as int)
                            == Err::<int, BatcherError>(BatcherError::InvalidInput));
                    }
                    return Err(e);
                },
            };

            // Check whether every participant of this set qualifies.
            let mut all_qualify = true;
            let mut q: usize = 0;
            while q < k
                invariant
                    sorted_deposits@ == sorted,
                    candidate_set@ == sorted.take(k as int),
                    0 <= q <= k <= sorted.len(),
                    payout_info == payout_info_spec(denomination, sorted.take(k as int),
                        reserve_in as int, reserve_out as int),
                    0 <= equal_share_spec(denomination, k as int, reserve_in as int,
                        reserve_out as int) <= i128::MAX,
                    0 <= slippage_bps_spec(sorted.take(k as int), equal_share_spec(denomination,
                        k as int, reserve_in as int, reserve_out as int)) <= 10000,
                    all_qualify <==> (forall|i2: int| 0 <= i2 < q
                        ==> equal_share_spec(denomination, k as int, reserve_in as int,
                            reserve_out as int) >= (#[trigger] sorted[i2]).min_amount_out
                            && slippage_bps_spec(sorted.take(k as int),
                                equal_share_spec(denomination, k as int, reserve_in as int,
                                    reserve_out as int)) <= sorted[i2].max_slippage_bps),
                decreases k - q,
            {
                let dep = candidate_set[q];
                let meets_minimum = payout_info.equal_payout_amount >= dep.min_amount_out;
                let within_slippage = payout_info.slippage_bps <= dep.max_slippage_bps;
                if !meets_minimum || !within_slippage {
                    all_qualify = false;
                }
                q = q + 1;
            }

            if all_qualify {
                proof {
                    assert(set_meets(denomination, sorted, k as int, reserve_in as int,
                        reserve_out as int));
                    assert(descend(denomination, sorted, k as int, mi, reserve_in as int,
                        reserve_out as int) == Ok::<int, BatcherError>(k as int));
                    assert(candidate_set@.len() == k as int);
                }
                return Ok(candidate_set);
            }
            proof {
                assert(!set_meets(denomination, sorted, k as int, reserve_in as int,
                    reserve_out as int));
                assert(descend(denomination, sorted, k as int, mi, reserve_in as int,
                    reserve_out as int)
                    == descend(denomination, sorted, k as int - 1, mi, reserve_in as int,
                        reserve_out as int));
            }
            k = k - 1;
        }
    }
}

/// Sorting one more element inserts exactly that element.
proof fn lemma_stable_sort_take_step(s: Seq<Deposit>, i: int)
    requires
        0 <= i < s.len(),
    ensures
        stable_sort_spec(s.take(i + 1))
            == sorted_insert(stable_sort_spec(s.take(i)), s[i]),
{
    assert(s.take(i + 1).drop_last() =~= s.take(i));
    assert(s.take(i + 1).last() == s[i]);
}

} // verus!
