//! The ways in which a request can fail.
//!
//! Both error types are generic in their text: executable code carries `String`,
//! specifications speak of the same variants over `Seq<char>`.

use vstd::prelude::*;

verus! {

/// The arithmetic operation whose result did not fit.
#[derive(Debug, Clone, Copy, PartialEq, Eq, Structural)]
pub enum OverflowOperation {
    Add,
    Sub,
    Mul,
}

/// An amount left the range of 128-bit unsigned integers.
#[derive(Debug, Clone, Copy, PartialEq, Eq, Structural)]
pub struct OverflowError {
    pub operation: OverflowOperation,
}

/// Failures of the helpers for money, splits and beacons.
#[allow(inconsistent_fields)]
#[derive(Debug, PartialEq)]
pub enum SharedError<S = String> {
    Overflow(OverflowError),
    Unauthorized,
    /// The three shares of a split do not add up to the whole.
    InvalidSplitSum { actual: u32 },
    InvalidDenom { expected: S, actual: S },
    /// No coins came with the request.
    NoFunds { expected: S },
    /// A coin of another denomination came with the request.
    UnexpectedFunds { expected: S },
    IncorrectPayment { expected: S, actual: S },
    ZeroAmount,
    /// A share is larger than the whole.
    BpsOutOfRange { value: u16 },
    InvalidBeacon { reason: S },
}

impl View for SharedError<String> {
    type V = SharedError<Seq<char>>;

    open spec fn view(&self) -> SharedError<Seq<char>> {
        match self {
            SharedError::Overflow(e) => SharedError::Overflow(*e),
            SharedError::Unauthorized => SharedError::Unauthorized,
            SharedError::InvalidSplitSum { actual } => SharedError::InvalidSplitSum {
                actual: *actual,
            },
            SharedError::InvalidDenom { expected, actual } => SharedError::InvalidDenom {
                expected: expected@,
                actual: actual@,
            },
            SharedError::NoFunds { expected } => SharedError::NoFunds { expected: expected@ },
            SharedError::UnexpectedFunds { expected } => SharedError::UnexpectedFunds {
                expected: expected@,
            },
            SharedError::IncorrectPayment { expected, actual } => SharedError::IncorrectPayment {
                expected: expected@,
                actual: actual@,
            },
            SharedError::ZeroAmount => SharedError::ZeroAmount,
            SharedError::BpsOutOfRange { value } => SharedError::BpsOutOfRange { value: *value },
            SharedError::InvalidBeacon { reason } => SharedError::InvalidBeacon { reason: reason@ },
        }
    }
}

impl SharedError<String> {
    /// The error for a coin of the wrong denomination.
    pub fn invalid_denom(expected: &str, actual: &str) -> (error: SharedError)
        ensures
            error@ == (SharedError::InvalidDenom { expected: expected@, actual: actual@ }),
    {
        SharedError::InvalidDenom { expected: expected.to_owned(), actual: actual.to_owned() }
    }
}

/// All the ways in which a request to the contract can fail.
#[allow(inconsistent_fields)]
#[derive(Debug, PartialEq)]
pub enum ContractError<S = String> {
    /// The chain's host refused a value; the text is the host's own.
    Std(S),
    Shared(SharedError<S>),
    Overflow(OverflowError),
    Unauthorized { role: S },
    Paused,
    InvalidConfig { reason: S },
    RoundNotFound { round_id: u64 },
    TicketNotFound { round_id: u64, ticket_id: S },
    RoundNotOpen { round_id: u64, status: S },
    RoundNotClosed { round_id: u64, closes_at: u64, now: u64 },
    UnexpectedStatus { round_id: u64, status: S, expected: S },
    InvalidTicketCount { count: u32, max: u32 },
    InvalidNumbers { expected: u8, number_max: u8, reason: S },
    NoPrize { round_id: u64, ticket_id: S },
    AlreadyClaimed { round_id: u64, ticket_id: S },
    /// A payout would push the tracked pool below zero.
    PoolUnderflow { round_id: u64, pool: S, requested: S },
    InsufficientTreasury { requested: S, available: S },
    ZeroWithdraw,
    /// The referee already has a referrer; bindings are immutable.
    AlreadyBound { referee: S },
    SelfReferral,
    UnknownReferralCode { code: S },
    /// Nothing is pending, or less than the configured floor.
    NothingToClaim,
    /// The sender is neither an authorized submitter nor the admin.
    UnauthorizedSubmitter,
    /// Randomness for the round has already been accepted.
    AlreadyFulfilled { round_id: u64 },
    /// The step does not belong to the configured randomness mode.
    WrongMode { mode: S },
    VerificationFailed { reason: S },
    InvalidRandomnessLength { actual: usize },
    /// The revealed value does not hash to the stored commitment.
    RevealMismatch,
    NoCommitment { round_id: u64 },
    InvalidPubkey { reason: S },
    /// The stored state belongs to another contract.
    InvalidMigration { expected: S, found: S },
}

/// An error as specifications see it.
pub type ErrorView = ContractError<Seq<char>>;

impl View for ContractError<String> {
    type V = ContractError<Seq<char>>;

    open spec fn view(&self) -> ContractError<Seq<char>> {
        match self {
            ContractError::Std(text) => ContractError::Std(text@),
            ContractError::Shared(e) => ContractError::Shared(e@),
            ContractError::Overflow(e) => ContractError::Overflow(*e),
            ContractError::Unauthorized { role } => ContractError::Unauthorized { role: role@ },
            ContractError::Paused => ContractError::Paused,
            ContractError::InvalidConfig { reason } => ContractError::InvalidConfig {
                reason: reason@,
            },
            ContractError::RoundNotFound { round_id } => ContractError::RoundNotFound {
                round_id: *round_id,
            },
            ContractError::TicketNotFound { round_id, ticket_id } => ContractError::TicketNotFound {
                round_id: *round_id,
                ticket_id: ticket_id@,
            },
            ContractError::RoundNotOpen { round_id, status } => ContractError::RoundNotOpen {
                round_id: *round_id,
                status: status@,
            },
            ContractError::RoundNotClosed {
                round_id,
                closes_at,
                now,
            } => ContractError::RoundNotClosed {
                round_id: *round_id,
                closes_at: *closes_at,
                now: *now,
            },
            ContractError::UnexpectedStatus {
                round_id,
                status,
                expected,
            } => ContractError::UnexpectedStatus {
                round_id: *round_id,
                status: status@,
                expected: expected@,
            },
            ContractError::InvalidTicketCount { count, max } => ContractError::InvalidTicketCount {
                count: *count,
                max: *max,
            },
            ContractError::InvalidNumbers {
                expected,
                number_max,
                reason,
            } => ContractError::InvalidNumbers {
                expected: *expected,
                number_max: *number_max,
                reason: reason@,
            },
            ContractError::NoPrize { round_id, ticket_id } => ContractError::NoPrize {
                round_id: *round_id,
                ticket_id: ticket_id@,
            },
            ContractError::AlreadyClaimed { round_id, ticket_id } => ContractError::AlreadyClaimed {
                round_id: *round_id,
                ticket_id: ticket_id@,
            },
            ContractError::PoolUnderflow {
                round_id,
                pool,
                requested,
            } => ContractError::PoolUnderflow {
                round_id: *round_id,
                pool: pool@,
                requested: requested@,
            },
            ContractError::InsufficientTreasury {
                requested,
                available,
            } => ContractError::InsufficientTreasury {
                requested: requested@,
                available: available@,
            },
            ContractError::ZeroWithdraw => ContractError::ZeroWithdraw,
            ContractError::AlreadyBound { referee } => ContractError::AlreadyBound {
                referee: referee@,
            },
            ContractError::SelfReferral => ContractError::SelfReferral,
            ContractError::UnknownReferralCode { code } => ContractError::UnknownReferralCode {
                code: code@,
            },
            ContractError::NothingToClaim => ContractError::NothingToClaim,
            ContractError::UnauthorizedSubmitter => ContractError::UnauthorizedSubmitter,
            ContractError::AlreadyFulfilled { round_id } => ContractError::AlreadyFulfilled {
                round_id: *round_id,
            },
            ContractError::WrongMode { mode } => ContractError::WrongMode { mode: mode@ },
            ContractError::VerificationFailed { reason } => ContractError::VerificationFailed {
                reason: reason@,
            },
            ContractError::InvalidRandomnessLength {
                actual,
            } => ContractError::InvalidRandomnessLength { actual: *actual },
            ContractError::RevealMismatch => ContractError::RevealMismatch,
            ContractError::NoCommitment { round_id } => ContractError::NoCommitment {
                round_id: *round_id,
            },
            ContractError::InvalidPubkey { reason } => ContractError::InvalidPubkey {
                reason: reason@,
            },
            ContractError::InvalidMigration { expected, found } => ContractError::InvalidMigration {
                expected: expected@,
                found: found@,
            },
        }
    }
}

impl ContractError<String> {
    /// The error for a sender without the named role.
    pub fn unauthorized(role: &str) -> (error: ContractError)
        ensures
            error@ == (ContractError::Unauthorized { role: role@ }),
    {
        ContractError::Unauthorized { role: role.to_owned() }
    }

    /// The error for randomness that failed a check.
    pub fn verification_failed(reason: &str) -> (error: ContractError)
        ensures
            error@ == (ContractError::VerificationFailed { reason: reason@ }),
    {
        ContractError::VerificationFailed { reason: reason.to_owned() }
    }

    /// The error for a configuration that breaks a rule.
    pub fn invalid_config(reason: &str) -> (error: ContractError)
        ensures
            error@ == (ContractError::InvalidConfig { reason: reason@ }),
    {
        ContractError::InvalidConfig { reason: reason.to_owned() }
    }
}

/// The error for an addition that does not fit.
pub open spec fn add_overflow() -> OverflowError {
    OverflowError { operation: OverflowOperation::Add }
}

} // verus!
