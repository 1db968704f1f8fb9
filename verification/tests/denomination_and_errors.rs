use coinjoin_batch::coinjoin::CoinJoinMixer;
use coinjoin_batch::denomination::Denomination;
use coinjoin_batch::error::{BatcherError, ErrorCategory};

#[test]
fn test_denomination_values() {
    assert_eq!(Denomination::Small.value(), 10_000_000);
    assert_eq!(Denomination::Medium.value(), 100_000_000);
    assert_eq!(Denomination::Large.value(), 1_000_000_000);
    // The authoritative value of the largest denomination is the one the
    // deposit-admission path accepts.
    assert_eq!(Denomination::ExtraLarge.value(), 2_000_000_000);
}

#[test]
fn test_is_supported_denomination() {
    assert!(CoinJoinMixer::is_supported_denomination(10_000_000));
    assert!(CoinJoinMixer::is_supported_denomination(100_000_000));
    assert!(!CoinJoinMixer::is_supported_denomination(50_000_000));
}

#[test]
fn test_calculate_deposit_count() {
    let result = CoinJoinMixer::calculate_deposit_count(10_000_000);
    assert!(result.is_ok());
    assert_eq!(result.unwrap(), 1);
}

#[test]
fn test_estimate_mixing_gas_cost() {
    let gas_cost = CoinJoinMixer::estimate_mixing_gas_cost(5);
    assert_eq!(gas_cost, 25000 + (5 * 8000) + 5000 + 3000);
}

#[test]
fn test_denomination_validation() {
    assert!(Denomination::from_amount(10_000_000).is_some());
    assert!(Denomination::from_amount(100_000_000).is_some());
    assert!(Denomination::from_amount(1_000_000_000).is_some());
    assert!(Denomination::from_amount(50_000_000).is_none());
}

#[test]
fn denomination_admission_is_exactly_the_fixed_table() {
    let supported: [i128; 4] = [10_000_000, 100_000_000, 1_000_000_000, 2_000_000_000];
    for a in supported {
        assert!(Denomination::from_amount(a).is_some());
        assert!(CoinJoinMixer::is_supported_denomination(a));
    }
    for a in [0i128, 1, 9_999_999, 10_000_001, 500_000_000, 10_000_000_000, -10_000_000] {
        assert!(Denomination::from_amount(a).is_none());
        assert!(!CoinJoinMixer::is_supported_denomination(a));
        assert_eq!(
            CoinJoinMixer::calculate_deposit_count(a),
            Err(BatcherError::InvalidInput)
        );
    }
}

#[test]
fn denomination_symbols_round_trip() {
    let all = [
        Denomination::Small,
        Denomination::Medium,
        Denomination::Large,
        Denomination::ExtraLarge,
    ];
    for d in all {
        assert_eq!(Denomination::from_symbol(d.symbol()), Ok(d));
    }
    assert_eq!(Denomination::Small.symbol(), "10");
    assert_eq!(Denomination::Medium.symbol(), "100");
    assert_eq!(Denomination::Large.symbol(), "1K");
    assert_eq!(Denomination::ExtraLarge.symbol(), "10K");
    assert_eq!(
        Denomination::from_symbol("2K"),
        Err(BatcherError::InvalidInput)
    );
    assert_eq!(
        Denomination::from_symbol(""),
        Err(BatcherError::InvalidInput)
    );
    assert_eq!(
        Denomination::from_symbol("10KK"),
        Err(BatcherError::InvalidInput)
    );
}

#[test]
fn error_categories_cover_the_taxonomy() {
    assert_eq!(BatcherError::InvalidInput.category(), ErrorCategory::Validation);
    assert_eq!(
        BatcherError::InsufficientBalance.category(),
        ErrorCategory::Validation
    );
    assert_eq!(BatcherError::Unauthorized.category(), ErrorCategory::Permission);
    assert_eq!(
        BatcherError::AlreadyInitialized.category(),
        ErrorCategory::Initialization
    );
    assert_eq!(
        BatcherError::NotInitialized.category(),
        ErrorCategory::Initialization
    );
    assert_eq!(BatcherError::PairNotFound.category(), ErrorCategory::Factory);
    assert_eq!(BatcherError::CommitExpired.category(), ErrorCategory::CommitReveal);
    assert_eq!(BatcherError::QueueFull.category(), ErrorCategory::MEVProtection);
    assert_eq!(BatcherError::OrderNotFound.category(), ErrorCategory::Order);
    assert_eq!(BatcherError::InternalError.category(), ErrorCategory::System);
}

#[test]
fn error_recoverability() {
    assert!(BatcherError::InvalidInput.is_recoverable());
    assert!(BatcherError::InsufficientBalance.is_recoverable());
    assert!(BatcherError::OrderTooEarly.is_recoverable());
    assert!(BatcherError::ExecutionWindowFull.is_recoverable());
    assert!(BatcherError::QueueFull.is_recoverable());
    assert!(!BatcherError::Unauthorized.is_recoverable());
    assert!(!BatcherError::NotInitialized.is_recoverable());
    assert!(!BatcherError::InternalError.is_recoverable());
}

#[test]
fn error_user_messages() {
    assert_eq!(
        BatcherError::InvalidInput.user_message(),
        "Invalid input parameters"
    );
    assert_eq!(
        BatcherError::InsufficientBalance.user_message(),
        "Insufficient balance"
    );
    assert_eq!(BatcherError::Unauthorized.user_message(), "Unauthorized access");
    assert_eq!(
        BatcherError::ContractPaused.user_message(),
        "Contract is currently paused"
    );
    assert_eq!(
        BatcherError::InternalError.user_message(),
        "Internal system error"
    );
    assert_eq!(
        BatcherError::PairNotFound.user_message(),
        "Unknown error occurred"
    );
}
