use winsaf::{
    BPS_DENOM, DEFAULT_PRIZE_BPS, DEFAULT_REFERRAL_BPS, DEFAULT_TICKET_PRICE_USAF,
    DEFAULT_TREASURY_BPS, SAF_DECIMALS, USAF_PER_SAF,
};
use winsaf::beacon::{find_round_after, BeaconRef, BeaconSource};
use winsaf::error::{OverflowError, OverflowOperation, SharedError};
use winsaf::money::{
    assert_exact_payment, assert_exact_usaf, assert_min_usaf, must_pay_only, must_pay_usaf_only,
    saf_to_usaf, usaf, Coin,
};
use winsaf::split::FundSplitBps;
use winsaf::status::RoundStatus;

#[test]
fn usaf_per_saf_matches_decimals() {
    assert_eq!(USAF_PER_SAF, 10u128.pow(SAF_DECIMALS));
}

#[test]
fn default_ticket_price_is_five_saf() {
    assert_eq!(DEFAULT_TICKET_PRICE_USAF, 5_000_000);
}

#[test]
fn default_split_sums_to_bps_denom() {
    let sum = DEFAULT_PRIZE_BPS + DEFAULT_REFERRAL_BPS + DEFAULT_TREASURY_BPS;
    assert_eq!(sum, BPS_DENOM);
}

#[test]
fn default_split_validates() {
    assert!(FundSplitBps::default_split().validate().is_ok());
}

#[test]
fn new_validates_on_construction() {
    assert!(FundSplitBps::new(7500, 1000, 1500).is_ok());
    assert!(FundSplitBps::new(7500, 1000, 1000).is_err());
}

#[test]
fn only_open_accepts_tickets() {
    assert!(RoundStatus::Open.accepts_tickets());
    assert!(!RoundStatus::Drawing.accepts_tickets());
    assert!(!RoundStatus::Settled.accepts_tickets());
}

#[test]
fn terminal_states() {
    assert!(RoundStatus::Settled.is_terminal());
    assert!(RoundStatus::Cancelled.is_terminal());
    assert!(!RoundStatus::Open.is_terminal());
}

#[test]
fn valid_transitions() {
    assert!(RoundStatus::Open.can_transition_to(&RoundStatus::Drawing));
    assert!(RoundStatus::Drawing.can_transition_to(&RoundStatus::Drawn));
    assert!(RoundStatus::Drawn.can_transition_to(&RoundStatus::Settled));
    assert!(RoundStatus::Open.can_transition_to(&RoundStatus::Cancelled));
}

#[test]
fn invalid_transitions() {
    assert!(!RoundStatus::Open.can_transition_to(&RoundStatus::Drawn));
    assert!(!RoundStatus::Settled.can_transition_to(&RoundStatus::Open));
    assert!(!RoundStatus::Drawn.can_transition_to(&RoundStatus::Cancelled));
}

#[test]
fn rejects_wrong_sum() {
    let bad = FundSplitBps::new_unchecked(5000, 1000, 1500);
    assert_eq!(bad.validate().unwrap_err(), SharedError::InvalidSplitSum { actual: 7500 });
}

#[test]
fn rejects_out_of_range_bucket() {
    let bad = FundSplitBps::new_unchecked(10_001, 0, 0);
    assert_eq!(bad.validate().unwrap_err(), SharedError::BpsOutOfRange { value: 10_001 });
}

#[test]
fn apply_preserves_total_no_dust() {
    let parts = FundSplitBps::default_split().apply(5_000_000).unwrap();
    assert_eq!(parts.prize, 3_750_000);
    assert_eq!(parts.referral, 500_000);
    assert_eq!(parts.treasury, 750_000);
    assert_eq!(parts.total(), 5_000_000);
}

#[test]
fn apply_routes_rounding_dust_to_treasury() {
    let amount = 7;
    let parts = FundSplitBps::default_split().apply(amount).unwrap();
    assert_eq!(parts.prize, 5);
    assert_eq!(parts.referral, 0);
    assert_eq!(parts.treasury, 2);
    assert_eq!(parts.total(), amount);
}

#[test]
fn apply_refuses_what_does_not_fit() {
    assert_eq!(
        FundSplitBps::default_split().apply(u128::MAX).unwrap_err(),
        SharedError::Overflow(OverflowError { operation: OverflowOperation::Mul })
    );
    let lavish = FundSplitBps::new_unchecked(10_000, 10_000, 0);
    assert_eq!(
        lavish.apply(5).unwrap_err(),
        SharedError::Overflow(OverflowError { operation: OverflowOperation::Sub })
    );
}

fn c(denom: &str, amount: u128) -> Coin {
    Coin { denom: denom.to_string(), amount }
}

#[test]
fn usaf_builder() {
    let coin = usaf(5_000_000);
    assert_eq!(coin.denom, "usaf");
    assert_eq!(coin.amount, 5_000_000);
}

#[test]
fn saf_conversion() {
    assert_eq!(saf_to_usaf(5).unwrap(), 5_000_000);
}

#[test]
fn saf_conversion_overflows() {
    assert_eq!(
        saf_to_usaf(u128::MAX / 1_000_000 + 1).unwrap_err(),
        SharedError::Overflow(OverflowError { operation: OverflowOperation::Mul })
    );
}

#[test]
fn empty_funds_rejected() {
    assert!(matches!(must_pay_usaf_only(&[]), Err(SharedError::NoFunds { .. })));
}

#[test]
fn foreign_denom_rejected() {
    let funds = vec![c("uatom", 10)];
    assert!(matches!(must_pay_usaf_only(&funds), Err(SharedError::UnexpectedFunds { .. })));
}

#[test]
fn sums_multiple_usaf_coins() {
    let funds = vec![c("usaf", 3_000_000), c("usaf", 2_000_000)];
    assert_eq!(must_pay_usaf_only(&funds).unwrap(), 5_000_000);
}

#[test]
fn zero_payment_and_too_much_rejected() {
    assert_eq!(must_pay_usaf_only(&[c("usaf", 0)]).unwrap_err(), SharedError::ZeroAmount);
    assert_eq!(
        must_pay_usaf_only(&[c("usaf", u128::MAX), c("usaf", 1)]).unwrap_err(),
        SharedError::Overflow(OverflowError { operation: OverflowOperation::Add })
    );
    // A coin of another denomination is named first.
    assert_eq!(
        must_pay_usaf_only(&[c("usaf", u128::MAX), c("usaf", 1), c("uatom", 1)]).unwrap_err(),
        SharedError::UnexpectedFunds { expected: "usaf".to_string() }
    );
}

#[test]
fn one_denomination_is_accepted_at_a_time() {
    let uatom = "uatom".to_string();
    assert_eq!(must_pay_only(&[c("uatom", 3), c("uatom", 4)], &uatom).unwrap(), 7);
    assert_eq!(
        must_pay_only(&[c("usaf", 3)], &uatom).unwrap_err(),
        SharedError::UnexpectedFunds { expected: uatom.clone() }
    );
    assert_eq!(
        assert_exact_payment(&[c("uatom", 3)], &uatom, 4).unwrap_err(),
        SharedError::IncorrectPayment { expected: "4".to_string(), actual: "3".to_string() }
    );
}

#[test]
fn first_beacon_round_after_a_time() {
    assert_eq!(find_round_after(100, 30, 99), 1);
    assert_eq!(find_round_after(100, 30, 100), 2);
    assert_eq!(find_round_after(100, 30, 129), 2);
    assert_eq!(find_round_after(100, 30, 130), 3);
    assert_eq!(find_round_after(0, 1, u64::MAX), u64::MAX);
}

#[test]
fn exact_payment_ok() {
    let funds = vec![c("usaf", 5_000_000)];
    assert!(assert_exact_usaf(&funds, 5_000_000).is_ok());
}

#[test]
fn exact_payment_mismatch() {
    let funds = vec![c("usaf", 4_000_000)];
    assert!(matches!(
        assert_exact_usaf(&funds, 5_000_000),
        Err(SharedError::IncorrectPayment { .. })
    ));
}

#[test]
fn min_payment_allows_overpay() {
    let funds = vec![c("usaf", 15_000_000)];
    assert_eq!(assert_min_usaf(&funds, 5_000_000).unwrap(), 15_000_000);
}

#[test]
fn min_payment_names_the_floor() {
    assert_eq!(
        assert_min_usaf(&[c("usaf", 4)], 5).unwrap_err(),
        SharedError::IncorrectPayment { expected: ">= 5".to_string(), actual: "4".to_string() }
    );
}

#[test]
fn invalid_denom_names_both() {
    assert_eq!(
        SharedError::invalid_denom("usaf", "uatom"),
        SharedError::InvalidDenom { expected: "usaf".to_string(), actual: "uatom".to_string() }
    );
}

fn h32() -> Vec<u8> {
    vec![7u8; 32]
}

#[test]
fn pending_is_not_fulfilled() {
    let b = BeaconRef::pending_drand("abcd", 1234);
    assert!(!b.is_fulfilled());
    assert!(b.randomness_bytes().is_err());
}

#[test]
fn fulfill_requires_32_bytes() {
    let mut b = BeaconRef::pending_drand("abcd", 1234);
    assert!(b.fulfill(vec![1u8; 16]).is_err());
    assert!(b.fulfill(h32()).is_ok());
    assert!(b.is_fulfilled());
    assert!(b.randomness_bytes().is_ok());
}

#[test]
fn validate_drand_requires_chain_hash_and_round() {
    let b = BeaconRef {
        source: BeaconSource::Drand,
        chain_hash: String::new(),
        round: 1,
        randomness: None,
    };
    assert!(b.validate().is_err());

    let b2 = BeaconRef::pending_drand("hash", 0);
    assert!(b2.validate().is_err());

    let ok = BeaconRef::pending_drand("hash", 42);
    assert!(ok.validate().is_ok());
}

#[test]
fn commit_reveal_needs_no_chain_hash() {
    let b = BeaconRef {
        source: BeaconSource::CommitReveal,
        chain_hash: String::new(),
        round: 7,
        randomness: None,
    };
    assert!(b.validate().is_ok());
}
