use coinjoin_batch::batcher::SoroSwapBatcher;
use coinjoin_batch::coinjoin::{Address, Bytes32, CoinJoinMixer};
use coinjoin_batch::denomination::Denomination;
use coinjoin_batch::error::BatcherError;

fn tag(n: u128) -> Bytes32 {
    Bytes32(n, 0)
}

fn deposit_small(
    mixer: &mut CoinJoinMixer,
    nullifier: u128,
    sender: u64,
    recipient: u64,
    now: u64,
) -> Result<(), BatcherError> {
    mixer.deposit(
        Denomination::Small,
        tag(1000 + nullifier),
        tag(nullifier),
        Address(sender),
        Address(recipient),
        50,
        Address(1),
        Address(2),
        9_000_000,
        now,
    )
}

#[test]
fn initialize_sets_core_state_and_enables_coinjoin() {
    let mut contract = SoroSwapBatcher::new(Address(99));

    let owner = Address(10);
    let factory = Address(11);
    let router = Address(12);

    contract
        .initialize(owner, factory, router)
        .expect("initialization should succeed");

    assert!(contract.is_coinjoin_enabled());
    assert_eq!(contract.get_owner().unwrap(), owner);
    assert_eq!(contract.get_factory().unwrap(), factory);
    assert_eq!(contract.get_router().unwrap(), router);
}

#[test]
fn double_initialize_fails() {
    let mut contract = SoroSwapBatcher::new(Address(99));

    let owner = Address(10);
    let factory = Address(11);
    let router = Address(12);

    contract.initialize(owner, factory, router).unwrap();

    let err = contract
        .initialize(owner, factory, router)
        .expect_err("second init should fail");
    assert!(matches!(err, BatcherError::AlreadyInitialized));
}

#[test]
fn coinjoin_stats_available_post_init() {
    let mut contract = SoroSwapBatcher::new(Address(99));
    contract
        .initialize(Address(10), Address(11), Address(12))
        .unwrap();

    let (pool_size, fee_bps, wait_time) = contract.get_coinjoin_stats("10").unwrap();

    assert_eq!(pool_size, 0);
    assert_eq!(fee_bps, 10); // default fee basis points from initialization
    assert_eq!(wait_time, 15); // minimum_pool_size(3) * 5 blocks wait
}

#[test]
fn getters_require_initialization() {
    let contract = SoroSwapBatcher::new(Address(99));
    assert!(!contract.is_initialized());
    assert_eq!(contract.get_owner(), Err(BatcherError::NotInitialized));
    assert_eq!(contract.get_router(), Err(BatcherError::NotInitialized));
    assert_eq!(contract.get_factory(), Err(BatcherError::NotInitialized));
    assert!(!contract.is_coinjoin_enabled());
}

#[test]
fn deposit_requires_enabled_mixer() {
    let mut mixer = CoinJoinMixer::new_disabled();
    let err = deposit_small(&mut mixer, 1, 100, 200, 1000).unwrap_err();
    assert_eq!(err, BatcherError::InvalidInput);
    assert_eq!(mixer.get_pool(Denomination::Small).deposits.len(), 0);
}

#[test]
fn deposit_records_fee_timestamps_and_queue_position() {
    let mut mixer = CoinJoinMixer::init_coinjoin();
    deposit_small(&mut mixer, 1, 100, 200, 1000).unwrap();
    deposit_small(&mut mixer, 2, 101, 201, 1001).unwrap();

    let pool = mixer.get_pool(Denomination::Small);
    assert_eq!(pool.deposits.len(), 2);
    assert_eq!(pool.deposits[0].timestamp, 1000);
    assert_eq!(pool.deposits[0].expiry_timestamp, 1000 + 48 * 60 * 60);
    // 0.10% mixer fee on the 10^7 denomination.
    assert_eq!(pool.deposits[0].fee_paid, 10_000);
    assert_eq!(pool.deposits[1].timestamp, 1001);

    let stats = mixer.get_pool_stats(Denomination::Small);
    assert_eq!(stats.current_pool_size, 2);
    assert_eq!(stats.total_deposits, 2);
    assert_eq!(stats.estimated_wait_time, 5);
}

#[test]
fn duplicate_nullifier_rejected_on_deposit() {
    let mut mixer = CoinJoinMixer::init_coinjoin();
    deposit_small(&mut mixer, 7, 100, 200, 1000).unwrap();

    // The same nullifier from a different sender is still rejected.
    let err = deposit_small(&mut mixer, 7, 555, 666, 1001).unwrap_err();
    assert_eq!(err, BatcherError::InvalidInput);
    assert_eq!(mixer.get_pool(Denomination::Small).deposits.len(), 1);

    // Even in another denomination's pool.
    let err2 = mixer
        .deposit(
            Denomination::Medium,
            tag(2000),
            tag(7),
            Address(300),
            Address(301),
            50,
            Address(1),
            Address(2),
            90_000_000,
            1002,
        )
        .unwrap_err();
    assert_eq!(err2, BatcherError::InvalidInput);
    assert_eq!(mixer.get_pool(Denomination::Medium).deposits.len(), 0);
}

#[test]
fn withdrawal_requests_share_the_nullifier_space() {
    let mut mixer = CoinJoinMixer::init_coinjoin();
    deposit_small(&mut mixer, 7, 100, 200, 1000).unwrap();

    // A withdrawal reusing a deposited nullifier is rejected.
    let err = mixer
        .request_withdrawal(Denomination::Small, tag(7), tag(8), tag(9), 1001)
        .unwrap_err();
    assert_eq!(err, BatcherError::InvalidInput);

    // A fresh one is recorded and retired.
    mixer
        .request_withdrawal(Denomination::Small, tag(40), tag(41), tag(42), 1002)
        .unwrap();
    assert_eq!(mixer.get_pool(Denomination::Small).withdrawals.len(), 1);
    let err2 = mixer
        .request_withdrawal(Denomination::Small, tag(40), tag(43), tag(44), 1003)
        .unwrap_err();
    assert_eq!(err2, BatcherError::InvalidInput);
}

#[test]
fn deposit_details_are_privacy_safe_and_indexed() {
    let mut contract = SoroSwapBatcher::new(Address(99));
    contract
        .initialize(Address(10), Address(11), Address(12))
        .unwrap();
    contract
        .private_swap(
            Address(1),
            Address(2),
            10_000_000,
            9_000_000,
            75,
            Address(100),
            Address(200),
            tag(5000),
            tag(5001),
            true,
            1234,
            None,
        )
        .unwrap();

    let (min_out, max_slip, expiry, timestamp, fee) =
        contract.get_deposit_details("10", 0).unwrap();
    assert_eq!(min_out, 9_000_000);
    assert_eq!(max_slip, 75);
    assert_eq!(expiry, 1234 + 48 * 60 * 60);
    assert_eq!(timestamp, 1234);
    assert_eq!(fee, 10_000);

    assert_eq!(
        contract.get_deposit_details("10", 1),
        Err(BatcherError::InvalidInput)
    );
    assert_eq!(
        contract.get_deposit_details("??", 0),
        Err(BatcherError::InvalidInput)
    );
}
