//! Chain and protocol constants of Safrochain and WinSaf.
//!
//! Values that can differ between deployments (endpoints, addresses) do not
//! belong here: only invariant protocol constants do.

use vstd::prelude::*;

verus! {

/// Base micro-denomination of the SAF token. All amounts are integer `usaf`.
pub const DENOM: &'static str = "usaf";

/// Display denomination: `1 SAF` is `10^SAF_DECIMALS` `usaf`.
pub const DISPLAY_DENOM: &'static str = "SAF";

/// Number of decimals between `SAF` and `usaf`.
pub const SAF_DECIMALS: u32 = 6;

/// How many `usaf` make one whole SAF (`10^SAF_DECIMALS`).
pub const USAF_PER_SAF: u128 = 1_000_000;

/// bech32 human-readable prefix of Safrochain account addresses.
pub const BECH32_PREFIX: &'static str = "addr_safro";

/// SLIP-0044 coin type; Safrochain reuses the one of the Cosmos Hub.
pub const COIN_TYPE: u32 = 118;

/// Basis-point denominator: the whole is 10_000 basis points.
pub const BPS_DENOM: u16 = 10_000;

/// Default ticket price: 5 SAF.
pub const DEFAULT_TICKET_PRICE_USAF: u128 = 5 * USAF_PER_SAF;

/// Default draw interval in seconds (24 hours).
pub const DEFAULT_DRAW_INTERVAL_SECONDS: u64 = 24 * 60 * 60;

/// Smallest lottery number.
pub const DEFAULT_NUMBER_MIN: u8 = 1;

/// Default largest lottery number.
pub const DEFAULT_NUMBER_MAX: u8 = 45;

/// Default count of distinct numbers on a ticket.
pub const DEFAULT_PICK_COUNT: u8 = 6;

/// Default share of the prize pool, in basis points.
pub const DEFAULT_PRIZE_BPS: u16 = 7_500;

/// Default share of referrers, in basis points.
pub const DEFAULT_REFERRAL_BPS: u16 = 1_000;

/// Default share of the treasury, in basis points.
pub const DEFAULT_TREASURY_BPS: u16 = 1_500;

/// Name under which the contract records itself.
pub const CONTRACT_NAME: &'static str = "crates.io:winsaf";

/// Version under which the contract records itself.
pub const CONTRACT_VERSION: &'static str = "0.1.0";

/// Most tickets that one transaction can buy.
pub const MAX_TICKETS_PER_TX: u32 = 100;

/// Page size of the ticket listing where the caller names none.
pub const DEFAULT_QUERY_LIMIT: u32 = 30;

/// Largest page size of the ticket listing.
pub const MAX_QUERY_LIMIT: u32 = 100;

/// Width to which ticket ids are padded with zeros.
pub const TICKET_ID_WIDTH: usize = 12;

/// Default for how long a reveal may take after its commitment, in seconds.
pub const DEFAULT_REVEAL_TIMEOUT_SECONDS: u64 = 3600;

/// How long after its closing time a round that waits for randomness can be
/// cancelled by everyone, in seconds.
pub const CANCEL_GRACE_SECONDS: u64 = 86_400;

/// Default for how many consecutive rounds without a jackpot winner the jackpot
/// share may wait before it goes to the best tier present.
pub const DEFAULT_MAX_DRY_ROUNDS: u64 = 5;

/// Fewest players of a round that counts toward the dry streak.
pub const MIN_PLAYERS_FOR_DRY_STREAK: u64 = 2;

/// When drand's quicknet published its first round, in seconds since the epoch.
pub const DRAND_QUICKNET_GENESIS: u64 = 1_692_803_367;

/// Seconds between two rounds of drand's quicknet.
pub const DRAND_QUICKNET_PERIOD: u64 = 3;

/// Longest referral code, in bytes.
pub const MAX_CODE_LEN: usize = 32;

} // verus!
