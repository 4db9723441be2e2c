//! Persistent state of the contract.

use crate::beacon::bytes_view;
use crate::constants::DEFAULT_MAX_DRY_ROUNDS;
use crate::host::text_view;
use crate::money::{Coin, CoinView};
use crate::prizes::PrizeTiers;
use crate::split::FundSplitBps;
use crate::status::RoundStatus;
use crate::table::Table;
use crate::text::{copy_bytes, texts};
use vstd::prelude::*;

verus! {

/// Which randomness mechanism the contract operates.
#[derive(Debug, Clone, Copy, PartialEq, Eq, Structural)]
pub enum RandomnessMode {
    /// The drand beacon, delivered by an authorized relayer.
    Drand,
    /// Commit-reveal on chain.
    CommitReveal,
    /// Any authorized submitter delivers randomness without a cryptographic
    /// check. Never for a main network.
    Mock,
}

impl RandomnessMode {
    /// The word for this mode.
    pub open spec fn word(self) -> Seq<char> {
        match self {
            RandomnessMode::Drand => "drand"@,
            RandomnessMode::CommitReveal => "commit_reveal"@,
            RandomnessMode::Mock => "mock"@,
        }
    }

    /// The word for this mode.
    pub fn as_str(&self) -> (text: &'static str)
        ensures
            text@ == self.word(),
    {
        match self {
            RandomnessMode::Drand => "drand",
            RandomnessMode::CommitReveal => "commit_reveal",
            RandomnessMode::Mock => "mock",
        }
    }
}

/// How delivered drand randomness is verified.
#[derive(Debug, Clone, Copy, PartialEq, Eq, Structural)]
pub enum VerifyMode {
    /// The pairing check against the group key.
    Bls,
    /// Structural checks alone. Never for a main network.
    Dev,
}

impl VerifyMode {
    /// The word for this mode.
    pub open spec fn word(self) -> Seq<char> {
        match self {
            VerifyMode::Bls => "bls"@,
            VerifyMode::Dev => "dev"@,
        }
    }
}

/// The word for a verification mode.
pub fn verify_mode_str(v: &VerifyMode) -> (text: &'static str)
    ensures
        text@ == v.word(),
{
    match v {
        VerifyMode::Bls => "bls",
        VerifyMode::Dev => "dev",
    }
}

/// Copies optional bytes.
pub fn copy_optional_bytes(bytes: &Option<Vec<u8>>) -> (copy: Option<Vec<u8>>)
    ensures
        bytes_view(copy) == bytes_view(*bytes),
{
    match bytes {
        Some(b) => Some(copy_bytes(b.as_slice())),
        None => None,
    }
}

/// Copies a list of strings.
pub fn copy_strings(strings: &Vec<String>) -> (copy: Vec<String>)
    ensures
        texts(copy@) == texts(strings@),
{
    let mut copy: Vec<String> = Vec::new();
    let mut i: usize = 0;
    while i < strings.len()
        invariant
            i <= strings.len(),
            copy@.len() == i,
            forall|j: int| 0 <= j < i ==> (#[trigger] copy@[j])@ == strings@[j]@,
        decreases strings.len() - i,
    {
        copy.push(strings[i].clone());
        i = i + 1;
    }
    assert(texts(copy@) =~= texts(strings@));
    copy
}

/// Whether a list of strings holds some text.
pub fn has_text(strings: &Vec<String>, text: &String) -> (yes: bool)
    ensures
        yes == texts(strings@).contains(text@),
{
    let mut i: usize = 0;
    while i < strings.len()
        invariant
            i <= strings.len(),
            forall|j: int| 0 <= j < i ==> (#[trigger] texts(strings@)[j]) != text@,
        decreases strings.len() - i,
    {
        if strings[i] == *text {
            assert(texts(strings@)[i as int] == text@);
            return true;
        }
        i = i + 1;
    }
    false
}

/// Protocol configuration and privileged roles.
#[derive(Debug, PartialEq)]
pub struct Config {
    /// May change the configuration, pause sales, withdraw the treasury and
    /// manage submitters.
    pub admin: String,
    /// Denomination in which everything is paid, in and out.
    pub denom: String,
    /// Price of a ticket, in `denom`.
    pub ticket_price: Coin,
    /// Seconds for which a round is open.
    pub draw_interval: u64,
    /// Distinct numbers on a ticket.
    pub numbers_per_ticket: u8,
    /// Largest number of the domain `1..=number_max`.
    pub number_max: u8,
    /// Shares of the revenue.
    pub split: FundSplitBps,
    /// Whether the undistributed pool of a round without a jackpot winner moves
    /// into the next round. Otherwise it stays with its round.
    pub rollover_on_no_winner: bool,
    /// Whether ticket sales are blocked.
    pub paused: bool,
    pub randomness_mode: RandomnessMode,
    pub verify_mode: VerifyMode,
    /// Group key of the drand chain, a point in G2 where signatures are checked.
    pub drand_pubkey: Vec<u8>,
    /// Identifies the drand chain that the key belongs to.
    pub drand_chain_hash: String,
    /// When the drand chain published its first round, in seconds since the epoch.
    /// Zero unless in drand mode.
    pub drand_genesis_time: u64,
    /// Seconds between two rounds of the drand chain. Zero unless in drand mode.
    pub drand_period: u64,
    /// Who may deliver randomness, besides the admin.
    pub authorized_submitters: Vec<String>,
    /// Least earnings that a referrer can claim.
    pub min_claim_usaf: u128,
    /// Seconds after a commitment from when on a round whose value was not revealed
    /// can be cancelled by everyone.
    pub reveal_timeout: u64,
    /// Whether everyone may register an unused referral code. Otherwise only the admin
    /// may, so that nobody can take codes that are meant for others.
    pub open_code_registration: bool,
    /// How many consecutive rounds without a jackpot winner the jackpot share may
    /// wait before it goes to the best tier present; zero for no limit.
    pub max_dry_rounds: u64,
}

/// The configuration as specifications see it.
#[verifier::ext_equal]
pub struct ConfigView {
    pub admin: Seq<char>,
    pub denom: Seq<char>,
    pub ticket_price: CoinView,
    pub draw_interval: u64,
    pub numbers_per_ticket: u8,
    pub number_max: u8,
    pub split: FundSplitBps,
    pub rollover_on_no_winner: bool,
    pub paused: bool,
    pub randomness_mode: RandomnessMode,
    pub verify_mode: VerifyMode,
    pub drand_pubkey: Seq<u8>,
    pub drand_chain_hash: Seq<char>,
    pub drand_genesis_time: u64,
    pub drand_period: u64,
    pub authorized_submitters: Seq<Seq<char>>,
    pub min_claim_usaf: u128,
    pub reveal_timeout: u64,
    pub open_code_registration: bool,
    pub max_dry_rounds: u64,
}

impl View for Config {
    type V = ConfigView;

    open spec fn view(&self) -> ConfigView {
        ConfigView {
            admin: self.admin@,
            denom: self.denom@,
            ticket_price: self.ticket_price@,
            draw_interval: self.draw_interval,
            numbers_per_ticket: self.numbers_per_ticket,
            number_max: self.number_max,
            split: self.split,
            rollover_on_no_winner: self.rollover_on_no_winner,
            paused: self.paused,
            randomness_mode: self.randomness_mode,
            verify_mode: self.verify_mode,
            drand_pubkey: self.drand_pubkey@,
            drand_chain_hash: self.drand_chain_hash@,
            drand_genesis_time: self.drand_genesis_time,
            drand_period: self.drand_period,
            authorized_submitters: texts(self.authorized_submitters@),
            min_claim_usaf: self.min_claim_usaf,
            reveal_timeout: self.reveal_timeout,
            open_code_registration: self.open_code_registration,
            max_dry_rounds: self.max_dry_rounds,
        }
    }
}

impl ConfigView {
    /// Whether someone is the admin or an authorized submitter.
    pub open spec fn may_submit(self, who: Seq<char>) -> bool {
        who == self.admin || self.authorized_submitters.contains(who)
    }

    /// Whether numbers can be drawn: at least one per ticket, and as many in the
    /// domain as on a ticket.
    pub open spec fn domain_ok(self) -> bool {
        1 <= self.numbers_per_ticket <= self.number_max
    }
}

impl Config {
    /// Whether `addr` may submit randomness, commit or reveal. The admin always
    /// may.
    pub fn is_submitter(&self, addr: &String) -> (yes: bool)
        ensures
            yes == self@.may_submit(addr@),
    {
        *addr == self.admin || has_text(&self.authorized_submitters, addr)
    }

    /// Whether `addr` is the admin.
    pub fn is_admin(&self, addr: &String) -> (yes: bool)
        ensures
            yes == (addr@ == self@.admin),
    {
        *addr == self.admin
    }

    /// A copy of the configuration.
    pub fn copy(&self) -> (copy: Config)
        ensures
            copy@ == self@,
    {
        Config {
            admin: self.admin.clone(),
            denom: self.denom.clone(),
            ticket_price: self.ticket_price.copy(),
            draw_interval: self.draw_interval,
            numbers_per_ticket: self.numbers_per_ticket,
            number_max: self.number_max,
            split: self.split,
            rollover_on_no_winner: self.rollover_on_no_winner,
            paused: self.paused,
            randomness_mode: self.randomness_mode,
            verify_mode: self.verify_mode,
            drand_pubkey: copy_bytes(self.drand_pubkey.as_slice()),
            drand_chain_hash: self.drand_chain_hash.clone(),
            drand_genesis_time: self.drand_genesis_time,
            drand_period: self.drand_period,
            authorized_submitters: copy_strings(&self.authorized_submitters),
            min_claim_usaf: self.min_claim_usaf,
            reveal_timeout: self.reveal_timeout,
            open_code_registration: self.open_code_registration,
            max_dry_rounds: self.max_dry_rounds,
        }
    }
}

/// Default for how many consecutive rounds without a jackpot winner the jackpot
/// share may wait.
pub fn default_max_dry_rounds() -> (rounds: u64)
    ensures
        rounds == DEFAULT_MAX_DRY_ROUNDS,
{
    DEFAULT_MAX_DRY_ROUNDS
}

/// A lottery round.
#[derive(Debug, PartialEq)]
pub struct Round {
    /// Rounds are numbered from one.
    pub id: u64,
    pub status: RoundStatus,
    /// What the round holds for prizes.
    pub pool: u128,
    /// Tickets sold.
    pub ticket_count: u64,
    /// Distinct buyers.
    pub player_count: u64,
    /// When the round opened, in seconds since the epoch.
    pub opens_at: u64,
    /// From when on the round can be closed.
    pub closes_at: u64,
    /// The winning numbers, once drawn.
    pub winning_numbers: Option<Vec<u8>>,
    /// What a winner of each tier receives, fixed by the draw.
    pub prize_tiers: PrizeTiers,
    /// The round whose leftover pool started this one.
    pub rolled_over_from: Option<u64>,
    /// Tickets that won something.
    pub winning_tickets: u64,
    /// A running digest of all tickets sold; all zero before the first.
    pub ticket_entropy: [u8; 32],
    /// The dry streak right after this round was drawn; zero before.
    pub dry_streak_after: u64,
}

/// A round as specifications see it.
#[verifier::ext_equal]
pub struct RoundView {
    pub id: u64,
    pub status: RoundStatus,
    pub pool: nat,
    pub ticket_count: u64,
    pub player_count: u64,
    pub opens_at: u64,
    pub closes_at: u64,
    pub winning_numbers: Option<Seq<u8>>,
    pub prize_tiers: PrizeTiers,
    pub rolled_over_from: Option<u64>,
    pub winning_tickets: u64,
    pub ticket_entropy: Seq<u8>,
    pub dry_streak_after: u64,
}

/// The running digest of a round without tickets.
pub open spec fn no_entropy() -> Seq<u8> {
    Seq::new(32, |i: int| 0u8)
}

impl View for Round {
    type V = RoundView;

    open spec fn view(&self) -> RoundView {
        RoundView {
            id: self.id,
            status: self.status,
            pool: self.pool as nat,
            ticket_count: self.ticket_count,
            player_count: self.player_count,
            opens_at: self.opens_at,
            closes_at: self.closes_at,
            winning_numbers: bytes_view(self.winning_numbers),
            prize_tiers: self.prize_tiers,
            rolled_over_from: self.rolled_over_from,
            winning_tickets: self.winning_tickets,
            ticket_entropy: self.ticket_entropy@,
            dry_streak_after: self.dry_streak_after,
        }
    }
}

impl RoundView {
    /// A round that has just opened.
    pub open spec fn opened(
        id: u64,
        opens_at: u64,
        closes_at: u64,
        pool: nat,
        rolled_over_from: Option<u64>,
    ) -> RoundView {
        RoundView {
            id,
            status: RoundStatus::Open,
            pool,
            ticket_count: 0,
            player_count: 0,
            opens_at,
            closes_at,
            winning_numbers: None,
            prize_tiers: PrizeTiers::none(),
            rolled_over_from,
            winning_tickets: 0,
            ticket_entropy: no_entropy(),
            dry_streak_after: 0,
        }
    }
}

impl Round {
    /// A round that has just opened, with what an earlier one may have left.
    pub fn new_open(
        id: u64,
        opens_at: u64,
        closes_at: u64,
        pool: u128,
        rolled_over_from: Option<u64>,
    ) -> (round: Self)
        ensures
            round@ == RoundView::opened(id, opens_at, closes_at, pool as nat, rolled_over_from),
    {
        let ticket_entropy: [u8; 32] = [0u8; 32];
        assert(ticket_entropy@ =~= no_entropy());
        Round {
            id,
            status: RoundStatus::Open,
            pool,
            ticket_count: 0,
            player_count: 0,
            opens_at,
            closes_at,
            winning_numbers: None,
            prize_tiers: PrizeTiers::default(),
            rolled_over_from,
            winning_tickets: 0,
            ticket_entropy,
            dry_streak_after: 0,
        }
    }
}

/// A purchased ticket.
#[derive(Debug, PartialEq)]
pub struct Ticket {
    /// Who bought the ticket and receives its prize.
    pub owner: String,
    /// The picks, in ascending order.
    pub numbers: Vec<u8>,
    /// How many picks are winning numbers; zero until drawn.
    pub matches: u8,
    /// What the ticket won, or what it is refunded; zero until then.
    pub prize: u128,
    /// Whether the prize or refund has been paid.
    pub claimed: bool,
    /// Whether someone else paid for the ticket as a bonus for its owner.
    pub free: bool,
}

/// A ticket as specifications see it.
#[verifier::ext_equal]
pub struct TicketView {
    pub owner: Seq<char>,
    pub numbers: Seq<u8>,
    pub matches: u8,
    pub prize: nat,
    pub claimed: bool,
    pub free: bool,
}

impl View for Ticket {
    type V = TicketView;

    open spec fn view(&self) -> TicketView {
        TicketView {
            owner: self.owner@,
            numbers: self.numbers@,
            matches: self.matches,
            prize: self.prize as nat,
            claimed: self.claimed,
            free: self.free,
        }
    }
}

impl TicketView {
    /// A ticket that has just been bought.
    pub open spec fn bought(owner: Seq<char>, numbers: Seq<u8>, free: bool) -> TicketView {
        TicketView { owner, numbers, matches: 0, prize: 0, claimed: false, free }
    }
}

impl Ticket {
    /// A copy of the ticket.
    pub fn copy(&self) -> (copy: Ticket)
        ensures
            copy@ == self@,
    {
        Ticket {
            owner: self.owner.clone(),
            numbers: copy_bytes(self.numbers.as_slice()),
            matches: self.matches,
            prize: self.prize,
            claimed: self.claimed,
            free: self.free,
        }
    }
}

/// Tickets as specifications see them.
pub open spec fn tickets_view(tickets: Seq<Ticket>) -> Seq<TicketView> {
    Seq::new(tickets.len(), |i: int| tickets[i]@)
}

/// Lifetime aggregates of a referrer.
#[derive(Debug, Clone, Copy, PartialEq, Eq, Structural)]
pub struct ReferrerTotals {
    /// Accounts bound to the referrer.
    pub referees: u64,
    /// Everything earned, paid out or not.
    pub lifetime_earned: u128,
    /// What has been paid out.
    pub lifetime_claimed: u128,
}

impl ReferrerTotals {
    /// The aggregates of someone who never referred anyone.
    pub open spec fn none() -> ReferrerTotals {
        ReferrerTotals { referees: 0, lifetime_earned: 0, lifetime_claimed: 0 }
    }
}

impl View for ReferrerTotals {
    type V = ReferrerTotals;

    open spec fn view(&self) -> ReferrerTotals {
        *self
    }
}

impl Default for ReferrerTotals {
    fn default() -> (totals: Self)
        ensures
            totals == ReferrerTotals::none(),
    {
        ReferrerTotals { referees: 0, lifetime_earned: 0, lifetime_claimed: 0 }
    }
}

/// Lifecycle of a round's randomness.
#[derive(Debug, Clone, Copy, PartialEq, Eq, Structural)]
pub enum RandomnessStatus {
    /// Nothing has been delivered.
    Pending,
    /// Commit-reveal: a commitment waits for its reveal.
    Committed,
    /// Randomness has been verified; the round can be drawn.
    Fulfilled,
}

/// The randomness of a round.
#[derive(Debug, PartialEq)]
pub struct RandomnessRequest {
    pub round_id: u64,
    /// The beacon round that the randomness belongs to.
    pub beacon_round: u64,
    pub status: RandomnessStatus,
    /// Commit-reveal: the digest of the value to be revealed.
    pub commitment: Option<Vec<u8>>,
    /// The verified randomness.
    pub randomness: Option<Vec<u8>>,
    /// The signature that was delivered with it.
    pub signature: Option<Vec<u8>>,
    /// Commit-reveal: who made the commitment, and alone may reveal.
    pub committer: Option<String>,
    /// Commit-reveal: the block of the commitment.
    pub commit_height: Option<u64>,
    /// Commit-reveal: from when on the round can be cancelled by everyone, in seconds
    /// since the epoch.
    pub reveal_deadline: Option<u64>,
}

/// The randomness of a round as specifications see it.
#[verifier::ext_equal]
pub struct RequestView {
    pub round_id: u64,
    pub beacon_round: u64,
    pub status: RandomnessStatus,
    pub commitment: Option<Seq<u8>>,
    pub randomness: Option<Seq<u8>>,
    pub signature: Option<Seq<u8>>,
    pub committer: Option<Seq<char>>,
    pub commit_height: Option<u64>,
    pub reveal_deadline: Option<u64>,
}

impl View for RandomnessRequest {
    type V = RequestView;

    open spec fn view(&self) -> RequestView {
        RequestView {
            round_id: self.round_id,
            beacon_round: self.beacon_round,
            status: self.status,
            commitment: bytes_view(self.commitment),
            randomness: bytes_view(self.randomness),
            signature: bytes_view(self.signature),
            committer: text_view(self.committer),
            commit_height: self.commit_height,
            reveal_deadline: self.reveal_deadline,
        }
    }
}

/// A randomness slot as specifications see it.
pub open spec fn request_view(request: Option<RandomnessRequest>) -> Option<RequestView> {
    match request {
        Some(r) => Some(r@),
        None => None,
    }
}

impl RequestView {
    /// The slot of a round that has just been closed.
    pub open spec fn pending(round_id: u64, beacon_round: u64) -> RequestView {
        RequestView {
            round_id,
            beacon_round,
            status: RandomnessStatus::Pending,
            commitment: None,
            randomness: None,
            signature: None,
            committer: None,
            commit_height: None,
            reveal_deadline: None,
        }
    }
}

impl RandomnessRequest {
    /// The slot of a round that has just been closed.
    pub fn pending(round_id: u64, beacon_round: u64) -> (request: Self)
        ensures
            request@ == RequestView::pending(round_id, beacon_round),
    {
        RandomnessRequest {
            round_id,
            beacon_round,
            status: RandomnessStatus::Pending,
            commitment: None,
            randomness: None,
            signature: None,
            committer: None,
            commit_height: None,
            reveal_deadline: None,
        }
    }

    /// A copy of the slot.
    pub fn copy(&self) -> (copy: Self)
        ensures
            copy@ == self@,
    {
        RandomnessRequest {
            round_id: self.round_id,
            beacon_round: self.beacon_round,
            status: self.status,
            commitment: copy_optional_bytes(&self.commitment),
            randomness: copy_optional_bytes(&self.randomness),
            signature: copy_optional_bytes(&self.signature),
            committer: match &self.committer {
                Some(who) => Some(who.clone()),
                None => None,
            },
            commit_height: self.commit_height,
            reveal_deadline: self.reveal_deadline,
        }
    }
}

/// A round with its tickets in the order of purchase and, once it is closed, its
/// randomness slot.
#[derive(Debug, PartialEq)]
pub struct RoundLedger {
    pub round: Round,
    pub tickets: Vec<Ticket>,
    pub randomness: Option<RandomnessRequest>,
}

/// A round's ledger as specifications see it.
#[verifier::ext_equal]
pub struct LedgerView {
    pub round: RoundView,
    pub tickets: Seq<TicketView>,
    pub randomness: Option<RequestView>,
}

impl View for RoundLedger {
    type V = LedgerView;

    open spec fn view(&self) -> LedgerView {
        LedgerView {
            round: self.round@,
            tickets: tickets_view(self.tickets@),
            randomness: request_view(self.randomness),
        }
    }
}

/// Name and version of the code that wrote the state.
#[derive(Debug, PartialEq)]
pub struct ContractVersion<S = String> {
    pub contract: S,
    pub version: S,
}

/// Name and version as specifications see them.
pub type VersionView = ContractVersion<Seq<char>>;

impl View for ContractVersion<String> {
    type V = ContractVersion<Seq<char>>;

    open spec fn view(&self) -> ContractVersion<Seq<char>> {
        ContractVersion { contract: self.contract@, version: self.version@ }
    }
}

/// Everything that the contract stores.
#[derive(Debug, PartialEq)]
pub struct State {
    pub version: ContractVersion,
    pub config: Config,
    /// What the admin can withdraw.
    pub treasury: u128,
    /// Round `i + 1` stands at index `i`; the last one is current.
    pub rounds: Vec<RoundLedger>,
    /// How many drawn rounds in a row had no jackpot winner and did not have to give
    /// the jackpot share to a lower tier. Rounds with too few players do not count.
    pub dry_streak: u64,
    /// Who referred an account. Set once.
    pub referrer: Table<String>,
    /// What a referrer has earned and not claimed.
    pub earnings: Table<u128>,
    /// Whose a referral code is.
    pub codes: Table<String>,
    /// Lifetime aggregates of a referrer.
    pub totals: Table<ReferrerTotals>,
}

/// The state as specifications see it.
#[verifier::ext_equal]
pub struct StateView {
    pub version: VersionView,
    pub config: ConfigView,
    pub treasury: nat,
    pub rounds: Seq<LedgerView>,
    pub dry_streak: u64,
    pub referrer: Map<Seq<char>, Seq<char>>,
    pub earnings: Map<Seq<char>, u128>,
    pub codes: Map<Seq<char>, Seq<char>>,
    pub totals: Map<Seq<char>, ReferrerTotals>,
}

/// The rounds of a contract as specifications see them.
pub open spec fn rounds_view(rounds: Seq<RoundLedger>) -> Seq<LedgerView> {
    Seq::new(rounds.len(), |i: int| rounds[i]@)
}

impl View for State {
    type V = StateView;

    open spec fn view(&self) -> StateView {
        StateView {
            version: self.version@,
            config: self.config@,
            treasury: self.treasury as nat,
            rounds: rounds_view(self.rounds@),
            dry_streak: self.dry_streak,
            referrer: self.referrer@,
            earnings: self.earnings@,
            codes: self.codes@,
            totals: self.totals@,
        }
    }
}

/// Whether the round at index `i` bears its number and has a status that fits its
/// place: all rounds but the last are settled or cancelled, and the last one sells
/// tickets or waits for its draw.
pub open spec fn in_place(rounds: Seq<LedgerView>, i: int) -> bool {
    &&& rounds[i].round.id == i + 1
    &&& if i + 1 < rounds.len() {
        rounds[i].round.status == RoundStatus::Settled || rounds[i].round.status
            == RoundStatus::Cancelled
    } else {
        rounds[i].round.status == RoundStatus::Open || rounds[i].round.status
            == RoundStatus::Drawing
    }
}

impl StateView {
    /// Whether the rounds are numbered and finished one after the other, and
    /// numbers can be drawn.
    pub open spec fn wf(self) -> bool {
        &&& self.rounds.len() >= 1
        &&& forall|i: int| 0 <= i < self.rounds.len() ==> #[trigger] in_place(self.rounds, i)
        &&& self.config.domain_ok()
    }

    /// Whether there is a round of that number.
    pub open spec fn has_round(self, round_id: u64) -> bool {
        1 <= round_id <= self.rounds.len()
    }

    /// The round of that number.
    pub open spec fn ledger(self, round_id: u64) -> LedgerView {
        self.rounds[round_id - 1]
    }

    /// The number of the current round.
    pub open spec fn current(self) -> u64 {
        self.rounds.len() as u64
    }

    /// The state with another ledger for a round.
    pub open spec fn with_ledger(self, round_id: u64, ledger: LedgerView) -> StateView {
        StateView { rounds: self.rounds.update(round_id - 1, ledger), ..self }
    }

    /// What a referrer has earned and not claimed.
    pub open spec fn earned(self, who: Seq<char>) -> u128 {
        if self.earnings.dom().contains(who) {
            self.earnings[who]
        } else {
            0
        }
    }

    /// Lifetime aggregates of a referrer.
    pub open spec fn totals_of(self, who: Seq<char>) -> ReferrerTotals {
        if self.totals.dom().contains(who) {
            self.totals[who]
        } else {
            ReferrerTotals::none()
        }
    }
}

impl State {
    /// Whether the state is well formed: the model is, and every table has each
    /// key once.
    pub open spec fn wf(self) -> bool {
        &&& self@.wf()
        &&& self.referrer.wf()
        &&& self.earnings.wf()
        &&& self.codes.wf()
        &&& self.totals.wf()
    }

    /// Whether the state is well formed.
    pub fn is_well_formed(&self) -> (yes: bool)
        ensures
            yes == self.wf(),
    {
        if self.rounds.len() == 0 || self.config.numbers_per_ticket == 0
            || self.config.numbers_per_ticket > self.config.number_max {
            return false;
        }
        let ghost rounds = self@.rounds;
        let mut i: usize = 0;
        while i < self.rounds.len()
            invariant
                i <= self.rounds.len(),
                rounds == self@.rounds,
                forall|j: int| 0 <= j < i ==> #[trigger] in_place(rounds, j),
            decreases self.rounds.len() - i,
        {
            let round = &self.rounds[i].round;
            assert(rounds[i as int].round == round@);
            let ok: bool = round.id == i as u64 + 1 && if i + 1 < self.rounds.len() {
                round.status == RoundStatus::Settled || round.status == RoundStatus::Cancelled
            } else {
                round.status == RoundStatus::Open || round.status == RoundStatus::Drawing
            };
            if !ok {
                assert(!in_place(rounds, i as int));
                return false;
            }
            assert(in_place(rounds, i as int));
            i = i + 1;
        }
        self.referrer.has_distinct_keys() && self.earnings.has_distinct_keys()
            && self.codes.has_distinct_keys() && self.totals.has_distinct_keys()
    }

    /// Where the round of that number stands.
    pub fn find_round(&self, round_id: u64) -> (place: Option<usize>)
        requires
            self.wf(),
        ensures
            match place {
                Some(i) => self@.has_round(round_id) && i == round_id - 1 && i
                    < self.rounds@.len(),
                None => !self@.has_round(round_id),
            },
    {
        if round_id >= 1 && round_id <= self.rounds.len() as u64 {
            Some((round_id - 1) as usize)
        } else {
            None
        }
    }

    /// What a referrer has earned and not claimed.
    pub fn earned_by(&self, who: &String) -> (amount: u128)
        requires
            self.wf(),
        ensures
            amount == self@.earned(who@),
    {
        match self.earnings.get(who) {
            Some(amount) => *amount,
            None => 0,
        }
    }

    /// Lifetime aggregates of a referrer.
    pub fn referrer_totals(&self, who: &String) -> (totals: ReferrerTotals)
        requires
            self.wf(),
        ensures
            totals == self@.totals_of(who@),
    {
        match self.totals.get(who) {
            Some(totals) => *totals,
            None => ReferrerTotals::default(),
        }
    }
}

} // verus!
