//! Messages that the contract understands and the answers to its queries.
//!
//! Account names arrive as [`AddrText`], together with the host's verdict on them;
//! randomness that has to be checked by the host's pairing arrives with the host's
//! answer.

use crate::beacon::bytes_view;
use crate::host::{text_view, AddrText};
use crate::money::Coin;
use crate::prizes::PrizeTiers;
use crate::split::FundSplitBps;
use crate::state::{
    request_view, Config, ConfigView, RandomnessMode, RandomnessRequest, RequestView, Ticket,
    TicketView, VerifyMode,
};
use crate::status::RoundStatus;
use crate::text::texts;
use crate::verify::PairingAnswer;
use vstd::prelude::*;

verus! {

/// Parameters of a new contract. What is left out has a default.
#[derive(Debug, PartialEq)]
pub struct InstantiateMsg {
    /// The sender, where left out.
    pub admin: Option<AddrText>,
    /// `usaf`, where left out.
    pub denom: Option<String>,
    /// Five SAF, where left out. Its denomination has to be `denom`.
    pub ticket_price: Option<Coin>,
    /// A day, where left out.
    pub draw_interval: Option<u64>,
    /// Six, where left out.
    pub numbers_per_ticket: Option<u8>,
    /// 45, where left out.
    pub number_max: Option<u8>,
    /// 75% / 10% / 15%, where left out.
    pub split: Option<FundSplitBps>,
    /// Yes, where left out.
    pub rollover_on_no_winner: Option<bool>,
    /// The mock mode, where left out.
    pub randomness_mode: Option<RandomnessMode>,
    /// The development mode, where left out.
    pub verify_mode: Option<VerifyMode>,
    /// Needed for drand with the pairing check.
    pub drand_pubkey: Option<Vec<u8>>,
    /// Needed for drand.
    pub drand_chain_hash: Option<String>,
    /// For drand; that of quicknet, where left out or zero.
    pub drand_genesis_time: Option<u64>,
    /// For drand; that of quicknet, where left out or zero.
    pub drand_period: Option<u64>,
    /// Who may deliver randomness, besides the admin.
    pub authorized_submitters: Vec<AddrText>,
    /// No floor, where left out.
    pub min_claim_usaf: Option<u128>,
    /// An hour, where left out.
    pub reveal_timeout: Option<u64>,
    /// Whether everyone may register referral codes. No, where left out.
    pub open_code_registration: Option<bool>,
    /// Five, where left out; zero for no limit.
    pub max_dry_rounds: Option<u64>,
}

/// Requests that change the state.
#[allow(inconsistent_fields)]
#[derive(Debug, PartialEq)]
pub enum ExecuteMsg {
    /// Buys `count` tickets of the current round for exactly their price.
    BuyTickets {
        count: u32,
        /// Picks for the first ticket; all others are picked for the buyer.
        numbers: Option<Vec<u8>>,
        /// Names the buyer's referrer, and binds the buyer to it.
        referral_code: Option<String>,
    },
    /// Gives `owner` tickets of the current round for which the sender pays exactly
    /// their price; all of it joins the pool. For submitters.
    GrantBonusTicket {
        owner: AddrText,
        count: u32,
        /// Picks for the first ticket; all others are picked for the owner.
        numbers: Option<Vec<u8>>,
    },
    /// Closes the current round once its time has passed. Open to everyone.
    CloseRound {  },
    /// Delivers randomness for a closed round. For submitters.
    SubmitRandomness {
        round_id: u64,
        randomness: Vec<u8>,
        /// The beacon's signature, checked in the drand mode.
        signature: Option<Vec<u8>>,
        /// The host's answer to the pairing query, where there was one.
        pairing: PairingAnswer,
    },
    /// Commit-reveal, first step: commits to the digest of a value.
    CommitRandomness { round_id: u64, commitment: Vec<u8> },
    /// Commit-reveal, second step: reveals the value.
    RevealRandomness { round_id: u64, value: Vec<u8> },
    /// Draws a closed round whose randomness is there, fixes the prizes and opens
    /// the next round. Open to everyone.
    Draw { round_id: u64 },
    /// Gives up a closed round whose randomness was not delivered: its pool becomes
    /// refunds for the owners of its tickets, and the next round opens. For the
    /// admin, and open to everyone after a grace period.
    CancelRound { round_id: u64 },
    /// Pays the prize, or the refund, of a ticket to its owner.
    ClaimReward { round_id: u64, ticket_id: String },
    /// Binds the sender to a referrer, once and for all.
    BindReferrer { referrer: Option<AddrText>, code: Option<String> },
    /// Registers a referral code for the sender. Open to the admin, and to everyone
    /// where the configuration says so.
    RegisterCode { code: String },
    /// Pays a referrer everything earned so far.
    ClaimReferral {  },
    /// Sends part of the treasury to an account. For the admin.
    WithdrawTreasury { to: AddrText, amount: u128 },
    /// Changes the configuration; what is left out stays. For the admin.
    SetConfig {
        admin: Option<AddrText>,
        ticket_price: Option<Coin>,
        draw_interval: Option<u64>,
        split: Option<FundSplitBps>,
        rollover_on_no_winner: Option<bool>,
        randomness_mode: Option<RandomnessMode>,
        verify_mode: Option<VerifyMode>,
        drand_pubkey: Option<Vec<u8>>,
        drand_chain_hash: Option<String>,
        drand_genesis_time: Option<u64>,
        drand_period: Option<u64>,
        min_claim_usaf: Option<u128>,
        reveal_timeout: Option<u64>,
        open_code_registration: Option<bool>,
        max_dry_rounds: Option<u64>,
        add_submitters: Option<Vec<AddrText>>,
        remove_submitters: Option<Vec<AddrText>>,
    },
    /// Blocks ticket sales. For the admin.
    Pause {  },
    /// Resumes ticket sales. For the admin.
    Unpause {  },
}

/// Requests that only read the state.
#[allow(inconsistent_fields)]
#[derive(Debug, PartialEq)]
pub enum QueryMsg {
    /// The configuration.
    Config {  },
    /// The current round.
    CurrentRound {  },
    /// A round.
    Round { round_id: u64 },
    /// A page of a round's tickets, possibly of one owner alone.
    Tickets {
        round_id: u64,
        owner: Option<AddrText>,
        start_after: Option<String>,
        limit: Option<u32>,
    },
    /// What an account won in a round.
    Prize { round_id: u64, owner: AddrText },
    /// Who referred an account.
    Referrer { referee: AddrText },
    /// What a referrer has earned.
    ReferralSummary { addr: AddrText },
    /// What the treasury holds.
    TreasuryBalance {  },
}

/// Parameters of a migration.
#[derive(Debug, PartialEq)]
pub struct MigrateMsg {}

/// A round, as queries show it.
#[derive(Debug, PartialEq)]
pub struct RoundResponse {
    pub id: u64,
    pub status: RoundStatus,
    pub pool: u128,
    pub ticket_count: u64,
    pub player_count: u64,
    pub opens_at: u64,
    pub closes_at: u64,
    pub winning_numbers: Option<Vec<u8>>,
    pub prize_tiers: PrizeTiers,
    pub rolled_over_from: Option<u64>,
    pub winning_tickets: u64,
    /// The randomness slot, once the round is closed.
    pub randomness: Option<RandomnessRequest>,
    /// The dry streak: for a settled round the one right after its draw, otherwise
    /// the present one.
    pub dry_streak: u64,
}

/// A shown round as specifications see it.
#[verifier::ext_equal]
pub struct RoundResponseView {
    pub id: u64,
    pub status: RoundStatus,
    pub pool: nat,
    pub ticket_count: u64,
    pub player_count: u64,
    pub opens_at: u64,
    pub closes_at: u64,
    pub winning_numbers: Option<Seq<u8>>,
    pub prize_tiers: PrizeTiers,
    pub rolled_over_from: Option<u64>,
    pub winning_tickets: u64,
    pub randomness: Option<RequestView>,
    pub dry_streak: u64,
}

impl View for RoundResponse {
    type V = RoundResponseView;

    open spec fn view(&self) -> RoundResponseView {
        RoundResponseView {
            id: self.id,
            status: self.status,
            pool: self.pool as nat,
            ticket_count: self.ticket_count,
            player_count: self.player_count,
            opens_at: self.opens_at,
            closes_at: self.closes_at,
            winning_numbers: bytes_view(self.winning_numbers),
            prize_tiers: self.prize_tiers,
            rolled_over_from: self.rolled_over_from,
            winning_tickets: self.winning_tickets,
            randomness: request_view(self.randomness),
            dry_streak: self.dry_streak,
        }
    }
}

/// A ticket with its id.
#[derive(Debug, PartialEq)]
pub struct TicketInfo {
    pub ticket_id: String,
    pub ticket: Ticket,
}

/// A ticket with its id as specifications see it.
pub struct TicketInfoView {
    pub ticket_id: Seq<char>,
    pub ticket: TicketView,
}

impl View for TicketInfo {
    type V = TicketInfoView;

    open spec fn view(&self) -> TicketInfoView {
        TicketInfoView { ticket_id: self.ticket_id@, ticket: self.ticket@ }
    }
}

/// A page of tickets.
#[derive(Debug, PartialEq)]
pub struct TicketsResponse {
    pub tickets: Vec<TicketInfo>,
}

impl View for TicketsResponse {
    type V = Seq<TicketInfoView>;

    open spec fn view(&self) -> Seq<TicketInfoView> {
        Seq::new(self.tickets@.len(), |i: int| self.tickets@[i]@)
    }
}

/// What an account won in a round.
#[derive(Debug, PartialEq)]
pub struct PrizeResponse {
    pub round_id: u64,
    pub owner: String,
    /// Prizes not yet paid.
    pub claimable: u128,
    /// Prizes already paid.
    pub claimed: u128,
    /// The winning tickets of the account.
    pub winning_ticket_ids: Vec<String>,
}

/// What an account won as specifications see it.
#[verifier::ext_equal]
pub struct PrizeResponseView {
    pub round_id: u64,
    pub owner: Seq<char>,
    pub claimable: nat,
    pub claimed: nat,
    pub winning_ticket_ids: Seq<Seq<char>>,
}

impl View for PrizeResponse {
    type V = PrizeResponseView;

    open spec fn view(&self) -> PrizeResponseView {
        PrizeResponseView {
            round_id: self.round_id,
            owner: self.owner@,
            claimable: self.claimable as nat,
            claimed: self.claimed as nat,
            winning_ticket_ids: texts(self.winning_ticket_ids@),
        }
    }
}

/// Who referred an account.
#[derive(Debug, PartialEq)]
pub struct ReferrerResponse {
    pub referrer: Option<String>,
}

impl View for ReferrerResponse {
    type V = Option<Seq<char>>;

    open spec fn view(&self) -> Option<Seq<char>> {
        text_view(self.referrer)
    }
}

/// What a referrer has earned.
#[derive(Debug, PartialEq)]
pub struct ReferralSummaryResponse<S = String> {
    pub addr: S,
    pub denom: S,
    /// Earned and not paid out.
    pub pending: u128,
    /// Accounts bound to the referrer.
    pub referees: u64,
    /// Everything earned, paid out or not.
    pub lifetime_earned: u128,
    /// What has been paid out.
    pub lifetime_claimed: u128,
}

impl View for ReferralSummaryResponse<String> {
    type V = ReferralSummaryResponse<Seq<char>>;

    open spec fn view(&self) -> ReferralSummaryResponse<Seq<char>> {
        ReferralSummaryResponse {
            addr: self.addr@,
            denom: self.denom@,
            pending: self.pending,
            referees: self.referees,
            lifetime_earned: self.lifetime_earned,
            lifetime_claimed: self.lifetime_claimed,
        }
    }
}

/// What the treasury holds.
#[derive(Debug, PartialEq)]
pub struct TreasuryBalanceResponse<S = String> {
    pub balance: u128,
    pub denom: S,
}

impl View for TreasuryBalanceResponse<String> {
    type V = TreasuryBalanceResponse<Seq<char>>;

    open spec fn view(&self) -> TreasuryBalanceResponse<Seq<char>> {
        TreasuryBalanceResponse { balance: self.balance, denom: self.denom@ }
    }
}

/// The answer to a query.
#[derive(Debug, PartialEq)]
pub enum QueryReply {
    Config(Config),
    Round(RoundResponse),
    Tickets(TicketsResponse),
    Prize(PrizeResponse),
    Referrer(ReferrerResponse),
    ReferralSummary(ReferralSummaryResponse),
    TreasuryBalance(TreasuryBalanceResponse),
}

/// The answer to a query as specifications see it.
pub enum ReplyView {
    Config(ConfigView),
    Round(RoundResponseView),
    Tickets(Seq<TicketInfoView>),
    Prize(PrizeResponseView),
    Referrer(Option<Seq<char>>),
    ReferralSummary(ReferralSummaryResponse<Seq<char>>),
    TreasuryBalance(TreasuryBalanceResponse<Seq<char>>),
}

impl View for QueryReply {
    type V = ReplyView;

    open spec fn view(&self) -> ReplyView {
        match self {
            QueryReply::Config(r) => ReplyView::Config(r@),
            QueryReply::Round(r) => ReplyView::Round(r@),
            QueryReply::Tickets(r) => ReplyView::Tickets(r@),
            QueryReply::Prize(r) => ReplyView::Prize(r@),
            QueryReply::Referrer(r) => ReplyView::Referrer(r@),
            QueryReply::ReferralSummary(r) => ReplyView::ReferralSummary(r@),
            QueryReply::TreasuryBalance(r) => ReplyView::TreasuryBalance(r@),
        }
    }
}

} // verus!
