//! Split of lottery revenue between prize pool, referrers and treasury.

use crate::constants::{BPS_DENOM, DEFAULT_PRIZE_BPS, DEFAULT_REFERRAL_BPS, DEFAULT_TREASURY_BPS};
use crate::error::{OverflowError, OverflowOperation, SharedError};
use vstd::prelude::*;

verus! {

/// Shares of the revenue in basis points; a valid split adds up to the whole.
#[derive(Debug, Clone, Copy, PartialEq, Eq, Structural)]
pub struct FundSplitBps {
    pub prize_bps: u16,
    pub referral_bps: u16,
    pub treasury_bps: u16,
}

/// Amounts that a split assigns to its three buckets.
#[derive(Debug, Clone, Copy, PartialEq, Eq, Structural)]
pub struct SplitAmounts {
    pub prize: u128,
    pub referral: u128,
    pub treasury: u128,
}

/// A share of an amount, rounded down.
pub open spec fn share(amount: nat, bps: nat) -> nat {
    amount * bps / 10_000
}

impl FundSplitBps {
    /// A split that is not checked.
    pub fn new_unchecked(prize_bps: u16, referral_bps: u16, treasury_bps: u16) -> (split: Self)
        ensures
            split == (FundSplitBps { prize_bps, referral_bps, treasury_bps }),
    {
        FundSplitBps { prize_bps, referral_bps, treasury_bps }
    }

    /// A checked split.
    pub fn new(prize_bps: u16, referral_bps: u16, treasury_bps: u16) -> (result: Result<
        Self,
        SharedError,
    >)
        ensures
            ({
                let split = FundSplitBps { prize_bps, referral_bps, treasury_bps };
                match split.refusal() {
                    Some(e) => result matches Err(error) && error@ == e,
                    None => result matches Ok(s) && s == split,
                }
            }),
    {
        let split = Self::new_unchecked(prize_bps, referral_bps, treasury_bps);
        match split.validate() {
            Ok(()) => Ok(split),
            Err(e) => Err(e),
        }
    }

    /// The split of the protocol: 75% prizes, 10% referrers, 15% treasury.
    pub open spec fn standard() -> FundSplitBps {
        FundSplitBps {
            prize_bps: DEFAULT_PRIZE_BPS,
            referral_bps: DEFAULT_REFERRAL_BPS,
            treasury_bps: DEFAULT_TREASURY_BPS,
        }
    }

    /// The split of the protocol.
    pub fn default_split() -> (split: Self)
        ensures
            split == FundSplitBps::standard(),
    {
        Self::new_unchecked(DEFAULT_PRIZE_BPS, DEFAULT_REFERRAL_BPS, DEFAULT_TREASURY_BPS)
    }

    /// The three shares together.
    pub open spec fn total_bps(self) -> nat {
        (self.prize_bps + self.referral_bps + self.treasury_bps) as nat
    }

    /// The three shares together.
    pub fn sum(&self) -> (sum: u32)
        ensures
            sum == self.total_bps(),
    {
        self.prize_bps as u32 + self.referral_bps as u32 + self.treasury_bps as u32
    }

    /// Why the split is not well formed: a share above the whole, the first one
    /// in order, or a sum other than the whole.
    pub open spec fn refusal(self) -> Option<SharedError<Seq<char>>> {
        if self.prize_bps > BPS_DENOM {
            Some(SharedError::BpsOutOfRange { value: self.prize_bps })
        } else if self.referral_bps > BPS_DENOM {
            Some(SharedError::BpsOutOfRange { value: self.referral_bps })
        } else if self.treasury_bps > BPS_DENOM {
            Some(SharedError::BpsOutOfRange { value: self.treasury_bps })
        } else if self.total_bps() != BPS_DENOM {
            Some(SharedError::InvalidSplitSum { actual: self.total_bps() as u32 })
        } else {
            None
        }
    }

    /// Whether the shares add up to the whole.
    pub open spec fn valid(self) -> bool {
        self.total_bps() == BPS_DENOM
    }

    /// Checks that every share is in range and that they add up to the whole.
    pub fn validate(&self) -> (result: Result<(), SharedError>)
        ensures
            match self.refusal() {
                Some(e) => result matches Err(error) && error@ == e,
                None => result is Ok,
            },
            result is Ok <==> self.valid(),
    {
        if self.prize_bps > BPS_DENOM {
            return Err(SharedError::BpsOutOfRange { value: self.prize_bps });
        }
        if self.referral_bps > BPS_DENOM {
            return Err(SharedError::BpsOutOfRange { value: self.referral_bps });
        }
        if self.treasury_bps > BPS_DENOM {
            return Err(SharedError::BpsOutOfRange { value: self.treasury_bps });
        }
        let sum = self.sum();
        if sum != BPS_DENOM as u32 {
            return Err(SharedError::InvalidSplitSum { actual: sum });
        }
        Ok(())
    }

    /// What the split assigns to the prize pool.
    pub open spec fn prize_of(self, amount: nat) -> nat {
        share(amount, self.prize_bps as nat)
    }

    /// What the split assigns to referrers.
    pub open spec fn referral_of(self, amount: nat) -> nat {
        share(amount, self.referral_bps as nat)
    }

    /// What the split leaves to the treasury, rounding losses included.
    pub open spec fn treasury_of(self, amount: nat) -> nat {
        (amount - self.prize_of(amount) - self.referral_of(amount)) as nat
    }

    /// Why the split cannot be applied to an amount.
    pub open spec fn apply_refusal(self, amount: nat) -> Option<SharedError<Seq<char>>> {
        if amount * self.prize_bps > u128::MAX || amount * self.referral_bps > u128::MAX {
            Some(SharedError::Overflow(OverflowError { operation: OverflowOperation::Mul }))
        } else if self.prize_of(amount) + self.referral_of(amount) > amount {
            Some(SharedError::Overflow(OverflowError { operation: OverflowOperation::Sub }))
        } else {
            None
        }
    }

    /// Applies the split to a gross amount: prize and referral are rounded down
    /// and the treasury takes the remainder.
    pub fn apply(&self, amount: u128) -> (result: Result<SplitAmounts, SharedError>)
        ensures
            match self.apply_refusal(amount as nat) {
                Some(e) => result matches Err(error) && error@ == e,
                None => result matches Ok(parts) && parts.prize == self.prize_of(amount as nat)
                    && parts.referral == self.referral_of(amount as nat) && parts.treasury
                    == self.treasury_of(amount as nat),
            },
    {
        let denom: u128 = BPS_DENOM as u128;
        let prize: u128 = match amount.checked_mul(self.prize_bps as u128) {
            Some(scaled) => scaled / denom,
            None => return Err(
                SharedError::Overflow(OverflowError { operation: OverflowOperation::Mul }),
            ),
        };
        let referral: u128 = match amount.checked_mul(self.referral_bps as u128) {
            Some(scaled) => scaled / denom,
            None => return Err(
                SharedError::Overflow(OverflowError { operation: OverflowOperation::Mul }),
            ),
        };
        let rest: u128 = match amount.checked_sub(prize) {
            Some(rest) => rest,
            None => return Err(
                SharedError::Overflow(OverflowError { operation: OverflowOperation::Sub }),
            ),
        };
        let treasury: u128 = match rest.checked_sub(referral) {
            Some(rest) => rest,
            None => return Err(
                SharedError::Overflow(OverflowError { operation: OverflowOperation::Sub }),
            ),
        };
        Ok(SplitAmounts { prize, referral, treasury })
    }
}

impl Default for FundSplitBps {
    fn default() -> (split: Self)
        ensures
            split == FundSplitBps::standard(),
    {
        Self::default_split()
    }
}

impl SplitAmounts {
    /// The three buckets together.
    pub fn total(&self) -> (total: u128)
        requires
            self.prize + self.referral + self.treasury <= u128::MAX,
        ensures
            total == self.prize + self.referral + self.treasury,
    {
        self.prize + self.referral + self.treasury
    }
}

/// Applying a split neither loses nor mints anything: the three parts add up to
/// the amount.
pub proof fn law_split_conserves(split: FundSplitBps, amount: nat)
    requires
        split.apply_refusal(amount) is None,
    ensures
        split.prize_of(amount) + split.referral_of(amount) + split.treasury_of(amount) == amount,
{
}

/// A valid split applies to every amount whose product with the larger share
/// fits, and the treasury never receives less than its own share.
pub proof fn law_valid_split_applies(split: FundSplitBps, amount: nat)
    requires
        split.valid(),
        amount * split.prize_bps <= u128::MAX,
        amount * split.referral_bps <= u128::MAX,
    ensures
        split.apply_refusal(amount) is None,
        split.treasury_of(amount) >= share(amount, split.treasury_bps as nat),
{
    let p = split.prize_bps as nat;
    let r = split.referral_bps as nat;
    let t = split.treasury_bps as nat;
    assert(amount * p + amount * r + amount * t == amount * 10_000) by (nonlinear_arith)
        requires
            p + r + t == 10_000,
    ;
}

/// The shares of the pool and of referrers are what the basis points say, rounded down;
/// a larger share or amount never receives less.
pub proof fn law_shares_are_proportional(split: FundSplitBps, amount: nat)
    ensures
        split.prize_of(amount) * 10_000 <= amount * split.prize_bps < split.prize_of(amount)
            * 10_000 + 10_000,
        split.referral_of(amount) * 10_000 <= amount * split.referral_bps < split.referral_of(
            amount,
        ) * 10_000 + 10_000,
{
}

} // verus!
