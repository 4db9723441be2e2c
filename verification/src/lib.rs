//! # WinSaf: a provably fair lottery
//!
//! One contract that sells tickets in one denomination (`usaf` unless another is
//! configured), splits every payment into a prize pool, a referral ledger and a
//! treasury, draws winning numbers from verified randomness and pays prizes on request.
//!
//! The whole state is one value, [`State`](state::State). A request is handled by
//! [`contract::execute`], whose contract says what every request leads to as a
//! function of the state before it: the next state and the reply, or the refusal, in
//! which case nothing changes. What only the chain's host can tell (whether an
//! address is valid, whether a pairing holds) comes with the request.
//!
//! - Handlers: [`admin`] and [`settings`] (setup, treasury, configuration),
//!   [`sales`], [`rounds`] (close, draw, claim), [`cancel`], [`randomness`], [`referral`],
//!   [`queries`], and [`contract`], which dispatches.
//! - Rules: [`money`], [`split`], [`picks`], [`prizes`], [`codes`], [`ticket_ids`],
//!   [`verify`], [`beacon`], [`status`].
//! - Data: [`state`], [`table`], [`msg`], [`response`], [`host`], [`error`],
//!   [`constants`], [`text`].
//! - What is proved of all of them together: [`soundness`] (the invariant of every
//!   reachable state), [`streaks`], [`accounts`] (no coin is lost or made up),
//!   [`laws`], [`fairness`] and [`locality`].
//! - What everyone can rely on, request by request and without looking at the handlers:
//!   [`setup_terms`], [`purchase_terms`], [`round_terms`], [`draw_terms`],
//!   [`randomness_terms`], [`referral_terms`], [`admin_terms`], [`answers`], [`records`]
//!   and [`setting_records`]; [`seeds`] and [`notation`] for the numbers and the texts.

#![allow(unused_imports)]

pub mod accounts;
pub mod admin;
pub mod admin_terms;
pub mod answers;
pub mod beacon;
pub mod cancel;
pub mod codes;
pub mod constants;
pub mod contract;
pub mod draw_terms;
pub mod error;
pub mod fairness;
pub mod host;
pub mod laws;
pub mod locality;
pub mod money;
pub mod msg;
pub mod notation;
pub mod outcome;
pub mod picks;
pub mod prizes;
pub mod purchase_terms;
pub mod queries;
pub mod randomness;
pub mod randomness_terms;
pub mod records;
pub mod referral;
pub mod referral_terms;
pub mod response;
pub mod round_terms;
pub mod rounds;
pub mod sales;
pub mod seeds;
pub mod setting_records;
pub mod settings;
pub mod setup_terms;
pub mod soundness;
pub mod split;
pub mod state;
pub mod status;
pub mod streaks;
pub mod table;
pub mod text;
pub mod ticket_ids;
pub mod verify;

pub use constants::{
    BECH32_PREFIX, BPS_DENOM, COIN_TYPE, DEFAULT_DRAW_INTERVAL_SECONDS, DEFAULT_NUMBER_MAX,
    DEFAULT_NUMBER_MIN, DEFAULT_PICK_COUNT, DEFAULT_PRIZE_BPS, DEFAULT_REFERRAL_BPS,
    DEFAULT_TICKET_PRICE_USAF, DEFAULT_TREASURY_BPS, DENOM, DISPLAY_DENOM, SAF_DECIMALS,
    USAF_PER_SAF,
};

pub use beacon::{BeaconRef, BeaconSource};
pub use error::{ContractError, SharedError};
pub use money::{assert_exact_usaf, assert_min_usaf, must_pay_usaf_only, saf_to_usaf, usaf};
pub use split::{FundSplitBps, SplitAmounts};
pub use status::RoundStatus;
