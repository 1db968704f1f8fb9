//! Error taxonomy of the batch contract surface.

use vstd::prelude::*;

verus! {

/// Error type for every batch contract operation.
#[derive(Debug, Copy, Clone, PartialEq, Eq, Structural)]
pub enum BatcherError {
    /// Core functionality errors
    InvalidInput,
    InsufficientBalance,
    Unauthorized,
    ContractPaused,
    InternalError,
    /// Initialization errors
    AlreadyInitialized,
    NotInitialized,
    /// Factory and pair errors
    FactoryNotConnected,
    PairNotFound,
    FactoryError,
    InvalidPairAddress,
    /// Commit-reveal errors
    CommitNotFound,
    CommitExpired,
    InvalidCommitHash,
    AlreadyRevealed,
    CommitRevealDisabled,
    /// MEV protection errors
    MEVProtectionDisabled,
    OrderTooEarly,
    OrderTooLate,
    ExecutionWindowFull,
    QueueFull,
    PriorityConflict,
    /// Order errors
    OrderNotFound,
}

/// Error categories for organized error handling.
#[derive(Debug, Copy, Clone, PartialEq, Eq, Structural)]
pub enum ErrorCategory {
    Initialization,
    Factory,
    Validation,
    Permission,
    CommitReveal,
    MEVProtection,
    Order,
    System,
}

impl BatcherError {
    /// The category an error belongs to.
    pub open spec fn category_spec(&self) -> ErrorCategory {
        match self {
            BatcherError::InvalidInput | BatcherError::InsufficientBalance
                => ErrorCategory::Validation,
            BatcherError::Unauthorized | BatcherError::ContractPaused
                => ErrorCategory::Permission,
            BatcherError::AlreadyInitialized | BatcherError::NotInitialized
                => ErrorCategory::Initialization,
            BatcherError::FactoryNotConnected | BatcherError::PairNotFound
            | BatcherError::FactoryError | BatcherError::InvalidPairAddress
                => ErrorCategory::Factory,
            BatcherError::CommitNotFound | BatcherError::CommitExpired
            | BatcherError::InvalidCommitHash | BatcherError::AlreadyRevealed
            | BatcherError::CommitRevealDisabled
                => ErrorCategory::CommitReveal,
            BatcherError::MEVProtectionDisabled | BatcherError::OrderTooEarly
            | BatcherError::OrderTooLate | BatcherError::ExecutionWindowFull
            | BatcherError::QueueFull | BatcherError::PriorityConflict
                => ErrorCategory::MEVProtection,
            BatcherError::OrderNotFound => ErrorCategory::Order,
            BatcherError::InternalError => ErrorCategory::System,
        }
    }

    /// Get error category for better error handling.
    pub fn category(&self) -> (c: ErrorCategory)
        ensures
            c == self.category_spec(),
    {
        match self {
            BatcherError::InvalidInput | BatcherError::InsufficientBalance
                => ErrorCategory::Validation,
            BatcherError::Unauthorized | BatcherError::ContractPaused
                => ErrorCategory::Permission,
            BatcherError::AlreadyInitialized | BatcherError::NotInitialized
                => ErrorCategory::Initialization,
            BatcherError::FactoryNotConnected | BatcherError::PairNotFound
            | BatcherError::FactoryError | BatcherError::InvalidPairAddress
                => ErrorCategory::Factory,
            BatcherError::CommitNotFound | BatcherError::CommitExpired
            | BatcherError::InvalidCommitHash | BatcherError::AlreadyRevealed
            | BatcherError::CommitRevealDisabled
                => ErrorCategory::CommitReveal,
            BatcherError::MEVProtectionDisabled | BatcherError::OrderTooEarly
            | BatcherError::OrderTooLate | BatcherError::ExecutionWindowFull
            | BatcherError::QueueFull | BatcherError::PriorityConflict
                => ErrorCategory::MEVProtection,
            BatcherError::OrderNotFound => ErrorCategory::Order,
            BatcherError::InternalError => ErrorCategory::System,
        }
    }

    /// Whether a failed call may be retried with the same inputs later.
    pub open spec fn is_recoverable_spec(&self) -> bool {
        match self {
            BatcherError::InvalidInput
            | BatcherError::InsufficientBalance
            | BatcherError::OrderTooEarly
            | BatcherError::ExecutionWindowFull
            | BatcherError::QueueFull => true,
            _ => false,
        }
    }

    /// Check if error is recoverable (can be retried).
    pub fn is_recoverable(&self) -> (r: bool)
        ensures
            r == self.is_recoverable_spec(),
    {
        match self {
            BatcherError::InvalidInput
            | BatcherError::InsufficientBalance
            | BatcherError::OrderTooEarly
            | BatcherError::ExecutionWindowFull
            | BatcherError::QueueFull => true,
            _ => false,
        }
    }

    /// Get user-friendly error message.
    pub fn user_message(&self) -> (m: &'static str)
        ensures
            *self == BatcherError::InvalidInput ==> m@ == "Invalid input parameters"@,
            *self == BatcherError::InsufficientBalance ==> m@ == "Insufficient balance"@,
            *self == BatcherError::Unauthorized ==> m@ == "Unauthorized access"@,
            *self == BatcherError::ContractPaused ==> m@ == "Contract is currently paused"@,
            *self == BatcherError::InternalError ==> m@ == "Internal system error"@,
    {
        match self {
            BatcherError::InvalidInput => "Invalid input parameters",
            BatcherError::InsufficientBalance => "Insufficient balance",
            BatcherError::Unauthorized => "Unauthorized access",
            BatcherError::ContractPaused => "Contract is currently paused",
            BatcherError::InternalError => "Internal system error",
            _ => "Unknown error occurred",
        }
    }
}

} // verus!
