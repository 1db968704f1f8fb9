use coinjoin_batch::batcher::SoroSwapBatcher;
use coinjoin_batch::coinjoin::{Address, Bytes32, CoinJoinMixer, Deposit};
use coinjoin_batch::denomination::Denomination;
use coinjoin_batch::error::BatcherError;
use coinjoin_batch::settle::PairView;

const TOKEN_IN: Address = Address(1);
const TOKEN_OUT: Address = Address(2);
const PAIR_ADDR: Address = Address(50);
const CONTRACT_ADDR: Address = Address(99);

fn tag(n: u128) -> Bytes32 {
    Bytes32(n, 0)
}

fn pair_view(reserve_0: i128, reserve_1: i128) -> PairView {
    PairView {
        pair_address: PAIR_ADDR,
        token_0: TOKEN_IN,
        token_1: TOKEN_OUT,
        reserve_0,
        reserve_1,
    }
}

fn initialized_contract() -> SoroSwapBatcher {
    let mut contract = SoroSwapBatcher::new(CONTRACT_ADDR);
    contract
        .initialize(Address(10), Address(11), Address(12))
        .unwrap();
    contract
}

fn swap_small(
    contract: &mut SoroSwapBatcher,
    id: u128,
    sender: u64,
    min_amount_out: i128,
    max_slippage_bps: u32,
    now: u64,
    pair: Option<&PairView>,
) -> Result<coinjoin_batch::batcher::SwapReceipt, BatcherError> {
    contract.private_swap(
        TOKEN_IN,
        TOKEN_OUT,
        10_000_000,
        min_amount_out,
        max_slippage_bps,
        Address(sender),
        Address(1000 + sender),
        tag(500_000 + id),
        tag(id),
        true,
        now,
        pair,
    )
}

fn raw_deposit(id: u128, min_amount_out: i128, max_slippage_bps: u32) -> Deposit {
    Deposit {
        commitment: tag(500_000 + id),
        timestamp: 1000,
        nullifier: tag(id),
        fee_paid: 10_000,
        sender_address: Address(100 + id as u64),
        recipient_address: Address(200 + id as u64),
        max_slippage_bps,
        expiry_timestamp: 1000 + 48 * 60 * 60,
        token_in: TOKEN_IN,
        token_out: TOKEN_OUT,
        min_amount_out,
    }
}

#[test]
fn coinjoin_flow_mixes_three_participants() {
    let mut mixer = CoinJoinMixer::init_coinjoin();
    let denom = Denomination::Small;

    for i in 0..3u128 {
        mixer
            .deposit(
                denom,
                tag(i),
                tag(i + 10),
                Address(100 + i as u64),
                Address(200 + i as u64),
                50, // max slippage bps
                TOKEN_IN,
                TOKEN_OUT,
                9_000_000,
                1000,
            )
            .unwrap();
    }

    // Execute mixing now that minimum participants are present.
    let pv = pair_view(1_000_000_000, 1_000_000_000);
    let mix_result = mixer
        .execute_mixing(denom, Some(3), &pv, CONTRACT_ADDR, 1001)
        .unwrap();
    assert!(mix_result.success);
    assert_eq!(mix_result.anonymity_set_size, 3);

    // Pool size should now be zero for this denomination.
    let pool_stats = mixer.get_pool_stats(denom);
    assert_eq!(pool_stats.current_pool_size, 0);
}

#[test]
fn happy_path_three_participants_small_denomination() {
    let mut contract = initialized_contract();
    let pv = pair_view(1_000_000_000, 1_000_000_000);

    let r1 = swap_small(&mut contract, 1, 101, 9_000_000, 50, 1000, Some(&pv)).unwrap();
    assert!(r1.settlement.is_none());
    assert!(r1.settlement_error.is_none());
    let r2 = swap_small(&mut contract, 2, 102, 9_000_000, 50, 1001, Some(&pv)).unwrap();
    assert!(r2.settlement.is_none());

    let r3 = swap_small(&mut contract, 3, 103, 9_000_000, 50, 1002, Some(&pv)).unwrap();
    assert_eq!(r3.timestamp, 1002);
    assert!(r3.settlement_error.is_none());
    let plan = r3.settlement.expect("third deposit settles the batch");

    // Aggregated input: custody moves 3·D of token_in into the pair.
    assert_eq!(plan.pair_transfer.token, TOKEN_IN);
    assert_eq!(plan.pair_transfer.from, CONTRACT_ADDR);
    assert_eq!(plan.pair_transfer.to, PAIR_ADDR);
    assert_eq!(plan.pair_transfer.amount, 30_000_000);

    // One-sided swap output back to the mixer:
    // (3·10^7·997·10^9) / (10^9·1000 + 3·10^7·997) = 29_041_372.
    assert_eq!(plan.swap_call.pair, PAIR_ADDR);
    assert_eq!(plan.swap_call.amount_0_out, 0);
    assert_eq!(plan.swap_call.amount_1_out, 29_041_372);
    assert_eq!(plan.swap_call.to, CONTRACT_ADDR);

    // Equal payout: every recipient gets exactly floor(out / 3).
    assert_eq!(plan.payouts.len(), 3);
    let share = 29_041_372 / 3;
    assert_eq!(share, 9_680_457);
    let mut sum: i128 = 0;
    for p in plan.payouts.iter() {
        assert_eq!(p.amount, share);
        assert_eq!(p.token, TOKEN_OUT);
        assert_eq!(p.from, CONTRACT_ADDR);
        sum += p.amount;
    }
    assert_eq!(sum, 3 * share);
    assert!(sum <= 29_041_372);
    let recipients: Vec<u64> = plan.payouts.iter().map(|p| p.to.0).collect();
    assert_eq!(recipients, vec![1101, 1102, 1103]);

    // The pool emptied.
    let (pool_size, _, _) = contract.get_coinjoin_stats("10").unwrap();
    assert_eq!(pool_size, 0);
}

#[test]
fn selector_shrinks_set_when_one_floor_fails() {
    let mut contract = initialized_contract();
    for (i, min_out) in [9_000_000i128, 9_000_000, 9_000_000, 9_700_000]
        .into_iter()
        .enumerate()
    {
        swap_small(
            &mut contract,
            i as u128 + 1,
            101 + i as u64,
            min_out,
            500,
            1000 + i as u64,
            None,
        )
        .unwrap();
    }

    let pv = pair_view(1_000_000_000, 1_000_000_000);
    // At set size 4 the share is 38_350_578 / 4 = 9_587_644, which fails the
    // fourth participant's floor; at size 3 it is 9_680_457 and qualifies.
    let mixed = contract
        .execute_coinjoin_mixing("10", None, &pv, 2000)
        .unwrap();
    assert_eq!(mixed, 3);

    let (pool_size, _, _) = contract.get_coinjoin_stats("10").unwrap();
    assert_eq!(pool_size, 1);
    let (remaining_min_out, _, _, _, _) = contract.get_deposit_details("10", 0).unwrap();
    assert_eq!(remaining_min_out, 9_700_000);
}

#[test]
fn unique_sender_gate_blocks_settlement() {
    let mut contract = initialized_contract();
    // Three deposits but only two distinct senders.
    swap_small(&mut contract, 1, 101, 9_000_000, 50, 1000, None).unwrap();
    swap_small(&mut contract, 2, 101, 9_000_000, 50, 1001, None).unwrap();
    swap_small(&mut contract, 3, 102, 9_000_000, 50, 1002, None).unwrap();

    let pv = pair_view(1_000_000_000, 1_000_000_000);
    let mixed = contract
        .execute_coinjoin_mixing("10", None, &pv, 2000)
        .unwrap();
    assert_eq!(mixed, 0);

    let (pool_size, _, _) = contract.get_coinjoin_stats("10").unwrap();
    assert_eq!(pool_size, 3);
}

#[test]
fn duplicate_nullifier_rejected_at_surface() {
    let mut contract = initialized_contract();
    swap_small(&mut contract, 7, 101, 9_000_000, 50, 1000, None).unwrap();

    // Same nullifier, different sender: rejected, pool size unchanged.
    let err = contract
        .private_swap(
            TOKEN_IN,
            TOKEN_OUT,
            10_000_000,
            9_000_000,
            50,
            Address(555),
            Address(666),
            tag(900_001),
            tag(7),
            true,
            1001,
            None,
        )
        .unwrap_err();
    assert_eq!(err, BatcherError::InvalidInput);
    let (pool_size, _, _) = contract.get_coinjoin_stats("10").unwrap();
    assert_eq!(pool_size, 1);
}

#[test]
fn deposit_survives_settlement_failure() {
    let mut contract = initialized_contract();
    // A drained pair: every candidate share is zero, so no set qualifies.
    let pv = pair_view(0, 0);

    swap_small(&mut contract, 1, 101, 9_000_000, 50, 1000, Some(&pv)).unwrap();
    swap_small(&mut contract, 2, 102, 9_000_000, 50, 1001, Some(&pv)).unwrap();
    let r3 = swap_small(&mut contract, 3, 103, 9_000_000, 50, 1002, Some(&pv)).unwrap();

    // The deposit is acknowledged by ledger timestamp, the input was
    // debited, and the executor's failure is reported, not propagated.
    assert_eq!(r3.timestamp, 1002);
    assert_eq!(r3.deposit_transfer.amount, 10_000_000);
    assert_eq!(r3.deposit_transfer.from, Address(103));
    assert_eq!(r3.deposit_transfer.to, CONTRACT_ADDR);
    assert!(r3.settlement.is_none());
    assert_eq!(r3.settlement_error, Some(BatcherError::InsufficientBalance));

    let (pool_size, _, _) = contract.get_coinjoin_stats("10").unwrap();
    assert_eq!(pool_size, 3);
}

#[test]
fn explicit_mixing_with_cap_takes_earliest_deposits() {
    let mut contract = initialized_contract();
    for i in 0..5u64 {
        swap_small(
            &mut contract,
            i as u128 + 1,
            101 + i,
            9_000_000,
            50,
            1000 + i,
            None,
        )
        .unwrap();
    }

    let pv = pair_view(1_000_000_000, 1_000_000_000);
    let mixed = contract
        .execute_coinjoin_mixing("10", Some(3), &pv, 2000)
        .unwrap();
    assert_eq!(mixed, 3);

    // Exactly the earliest three (by insertion order, since all floors tie)
    // were settled; the remaining two keep their order.
    let (pool_size, _, _) = contract.get_coinjoin_stats("10").unwrap();
    assert_eq!(pool_size, 2);
    let (_, _, _, t0, _) = contract.get_deposit_details("10", 0).unwrap();
    let (_, _, _, t1, _) = contract.get_deposit_details("10", 1).unwrap();
    assert_eq!(t0, 1003);
    assert_eq!(t1, 1004);
}

#[test]
fn expired_deposits_are_not_selectable() {
    let mut contract = initialized_contract();
    swap_small(&mut contract, 1, 101, 9_000_000, 50, 1000, None).unwrap();
    swap_small(&mut contract, 2, 102, 9_000_000, 50, 1000, None).unwrap();
    swap_small(&mut contract, 3, 103, 9_000_000, 50, 1000, None).unwrap();

    let pv = pair_view(1_000_000_000, 1_000_000_000);
    // One second past the 48-hour expiry: no candidate is left.
    let err = contract
        .execute_coinjoin_mixing("10", None, &pv, 1000 + 48 * 60 * 60 + 1)
        .unwrap_err();
    assert_eq!(err, BatcherError::InvalidInput);
    let (pool_size, _, _) = contract.get_coinjoin_stats("10").unwrap();
    assert_eq!(pool_size, 3);
}

#[test]
fn mismatched_pair_is_reported() {
    let mut contract = initialized_contract();
    swap_small(&mut contract, 1, 101, 9_000_000, 50, 1000, None).unwrap();
    swap_small(&mut contract, 2, 102, 9_000_000, 50, 1001, None).unwrap();
    swap_small(&mut contract, 3, 103, 9_000_000, 50, 1002, None).unwrap();

    let wrong_pair = PairView {
        pair_address: PAIR_ADDR,
        token_0: Address(7),
        token_1: Address(8),
        reserve_0: 1_000_000_000,
        reserve_1: 1_000_000_000,
    };
    let err = contract
        .execute_coinjoin_mixing("10", None, &wrong_pair, 2000)
        .unwrap_err();
    assert_eq!(err, BatcherError::PairNotFound);
}

#[test]
fn mix_result_reports_equal_amounts_fees_and_gas() {
    let mut mixer = CoinJoinMixer::init_coinjoin();
    for i in 0..3u128 {
        mixer
            .deposit(
                Denomination::Small,
                tag(500 + i),
                tag(i),
                Address(100 + i as u64),
                Address(200 + i as u64),
                50,
                TOKEN_IN,
                TOKEN_OUT,
                9_000_000,
                1000,
            )
            .unwrap();
    }
    let pv = pair_view(1_000_000_000, 1_000_000_000);
    let m = mixer
        .execute_mixing(Denomination::Small, None, &pv, CONTRACT_ADDR, 1001)
        .unwrap();
    assert!(m.success);
    assert_eq!(m.anonymity_set_size, 3);
    assert_eq!(m.mixed_amounts, vec![9_680_457i128; 3]);
    assert_eq!(m.fees_paid, 30_000);
    assert_eq!(m.gas_used, 25_000 + 3 * 8_000 + 5_000 + 3_000);
    assert!(m.settlement.is_some());
}

#[test]
fn private_swap_admission_and_authorization() {
    // Before initialization.
    let mut fresh = SoroSwapBatcher::new(CONTRACT_ADDR);
    let err = fresh
        .private_swap(
            TOKEN_IN,
            TOKEN_OUT,
            10_000_000,
            9_000_000,
            50,
            Address(101),
            Address(201),
            tag(1),
            tag(2),
            true,
            1000,
            None,
        )
        .unwrap_err();
    assert_eq!(err, BatcherError::NotInitialized);

    let mut contract = initialized_contract();

    // Missing authorization.
    let err = contract
        .private_swap(
            TOKEN_IN,
            TOKEN_OUT,
            10_000_000,
            9_000_000,
            50,
            Address(101),
            Address(201),
            tag(1),
            tag(2),
            false,
            1000,
            None,
        )
        .unwrap_err();
    assert_eq!(err, BatcherError::Unauthorized);

    // An amount outside the denomination table.
    let err = contract
        .private_swap(
            TOKEN_IN,
            TOKEN_OUT,
            50_000_000,
            9_000_000,
            50,
            Address(101),
            Address(201),
            tag(1),
            tag(2),
            true,
            1000,
            None,
        )
        .unwrap_err();
    assert_eq!(err, BatcherError::InvalidInput);

    // Every fixed denomination is admitted.
    for (i, amount) in [10_000_000i128, 100_000_000, 1_000_000_000, 2_000_000_000]
        .into_iter()
        .enumerate()
    {
        contract
            .private_swap(
                TOKEN_IN,
                TOKEN_OUT,
                amount,
                1,
                50,
                Address(101),
                Address(201),
                tag(600 + i as u128),
                tag(700 + i as u128),
                true,
                1000,
                None,
            )
            .unwrap();
    }
}

#[test]
fn payout_formula_is_exact() {
    let deposits = vec![
        raw_deposit(1, 9_000_000, 50),
        raw_deposit(2, 9_000_000, 50),
        raw_deposit(3, 9_000_000, 50),
    ];
    let info = CoinJoinMixer::calculate_equal_payout(
        Denomination::Small,
        &deposits,
        1_000_000_000,
        1_000_000_000,
    )
    .unwrap();
    assert_eq!(info.total_input_amount, 30_000_000);
    assert_eq!(info.total_output_amount, 29_041_372);
    assert_eq!(info.equal_payout_amount, 9_680_457);
    assert_eq!(info.participant_count, 3);
    // The average floor (9·10^6) is below the share, so no slippage.
    assert_eq!(info.slippage_bps, 0);
}

#[test]
fn payout_slippage_against_average_floor() {
    // Floors above the share: slippage is
    // (10^7 − 9_680_457) · 10^4 / 10^7 = 319 bps, truncating.
    let deposits = vec![
        raw_deposit(1, 10_000_000, 500),
        raw_deposit(2, 10_000_000, 500),
        raw_deposit(3, 10_000_000, 500),
    ];
    let info = CoinJoinMixer::calculate_equal_payout(
        Denomination::Small,
        &deposits,
        1_000_000_000,
        1_000_000_000,
    )
    .unwrap();
    assert_eq!(info.equal_payout_amount, 9_680_457);
    assert_eq!(info.slippage_bps, 319);
}

#[test]
fn payout_rejects_bad_inputs() {
    let empty: Vec<Deposit> = Vec::new();
    assert_eq!(
        CoinJoinMixer::calculate_equal_payout(Denomination::Small, &empty, 1, 1),
        Err(BatcherError::InvalidInput)
    );

    let deposits = vec![raw_deposit(1, 9_000_000, 50)];
    assert_eq!(
        CoinJoinMixer::calculate_equal_payout(Denomination::Small, &deposits, -1, 1),
        Err(BatcherError::InvalidInput)
    );

    // Overflow in the constant-product numerator is detected, not wrapped.
    assert_eq!(
        CoinJoinMixer::calculate_equal_payout(Denomination::Small, &deposits, 1, i128::MAX),
        Err(BatcherError::InvalidInput)
    );

    let mut mismatched = vec![raw_deposit(1, 9_000_000, 50), raw_deposit(2, 9_000_000, 50)];
    mismatched[1].token_out = Address(77);
    assert_eq!(
        CoinJoinMixer::calculate_equal_payout(Denomination::Small, &mismatched, 1, 1),
        Err(BatcherError::InvalidInput)
    );
}

#[test]
fn selector_returns_largest_qualifying_set() {
    let mixer = CoinJoinMixer::init_coinjoin();
    let deposits = vec![
        raw_deposit(1, 9_000_000, 500),
        raw_deposit(2, 9_000_000, 500),
        raw_deposit(3, 9_000_000, 500),
        raw_deposit(4, 9_700_000, 500),
    ];
    let selected = mixer
        .find_optimal_participant_set(
            Denomination::Small,
            &deposits,
            1_000_000_000,
            1_000_000_000,
        )
        .unwrap();
    assert_eq!(selected.len(), 3);
    for d in &selected {
        assert_eq!(d.min_amount_out, 9_000_000);
    }
}

#[test]
fn selector_fails_when_no_set_qualifies() {
    let mixer = CoinJoinMixer::init_coinjoin();
    let deposits = vec![
        raw_deposit(1, 100_000_000, 500),
        raw_deposit(2, 100_000_000, 500),
        raw_deposit(3, 100_000_000, 500),
    ];
    assert_eq!(
        mixer
            .find_optimal_participant_set(
                Denomination::Small,
                &deposits,
                1_000_000_000,
                1_000_000_000,
            )
            .unwrap_err(),
        BatcherError::InsufficientBalance
    );

    let empty: Vec<Deposit> = Vec::new();
    assert_eq!(
        mixer
            .find_optimal_participant_set(Denomination::Small, &empty, 1, 1)
            .unwrap_err(),
        BatcherError::InvalidInput
    );
}

#[test]
fn sort_is_stable_and_ascending() {
    let mut deposits = vec![
        raw_deposit(0, 5, 50),
        raw_deposit(1, 3, 50),
        raw_deposit(2, 5, 50),
        raw_deposit(3, 1, 50),
        raw_deposit(4, 3, 50),
    ];
    CoinJoinMixer::sort_deposits_by_min_amount(&mut deposits);
    let keys: Vec<i128> = deposits.iter().map(|d| d.min_amount_out).collect();
    assert_eq!(keys, vec![1, 3, 3, 5, 5]);
    // Ties keep their insertion order.
    let ids: Vec<u128> = deposits.iter().map(|d| d.nullifier.0).collect();
    assert_eq!(ids, vec![3, 1, 4, 0, 2]);
}
