use cosmwasm_std::testing::{mock_env, MockApi};
use cosmwasm_std::{Addr, Api};

use winsaf::admin::instantiate;
use winsaf::constants::{CANCEL_GRACE_SECONDS, CONTRACT_NAME, CONTRACT_VERSION};
use winsaf::contract::{execute, migrate, query};
use winsaf::error::{ContractError, OverflowError, OverflowOperation, SharedError};
use winsaf::host::{AddrText, Env, MessageInfo};
use winsaf::money::Coin;
use winsaf::msg::{
    ExecuteMsg, InstantiateMsg, MigrateMsg, PrizeResponse, QueryMsg, QueryReply,
    ReferralSummaryResponse, ReferrerResponse, RoundResponse, TicketsResponse,
    TreasuryBalanceResponse,
};
use winsaf::picks::{derive_winning_numbers, quick_pick};
use winsaf::randomness::randomness_query;
use winsaf::response::Response;
use winsaf::sales::write_entropy_message;
use winsaf::split::FundSplitBps;
use winsaf::state::{
    default_max_dry_rounds, Config, ContractVersion, RandomnessMode, RandomnessStatus, State,
    VerifyMode,
};
use winsaf::status::RoundStatus;
use winsaf::text::hex_text;
use winsaf::ticket_ids::ticket_id;
use winsaf::verify::{drand_message, sha256, PairingAnswer, G1_LEN, G2_LEN};
use winsaf::{DEFAULT_DRAW_INTERVAL_SECONDS, DENOM};

const TICKET_PRICE: u128 = 5_000_000;
const DRAW_INTERVAL: u64 = 3600;

fn mk(s: &str) -> String {
    MockApi::default().addr_make(s).to_string()
}

fn name(text: &str) -> AddrText {
    let verdict = match MockApi::default().addr_validate(text) {
        Ok(address) => Ok(Addr::to_string(&address)),
        Err(e) => Err(e.to_string()),
    };
    AddrText { text: text.to_string(), verdict }
}

fn block() -> Env {
    let env = mock_env();
    Env { height: env.block.height, time_nanos: env.block.time.nanos() }
}

fn advance(env: &Env, secs: u64) -> Env {
    let seconds = env.time_nanos / 1_000_000_000 + secs;
    Env { height: env.height + 1, time_nanos: seconds * 1_000_000_000 }
}

fn coins(amount: u128, denom: &str) -> Vec<Coin> {
    vec![Coin { denom: denom.to_string(), amount }]
}

fn from(sender: &str) -> MessageInfo {
    MessageInfo { sender: sender.to_string(), funds: vec![] }
}

fn paying(sender: &str, funds: Vec<Coin>) -> MessageInfo {
    MessageInfo { sender: sender.to_string(), funds }
}

fn empty_msg() -> InstantiateMsg {
    InstantiateMsg {
        admin: None,
        denom: None,
        ticket_price: None,
        draw_interval: None,
        numbers_per_ticket: None,
        number_max: None,
        split: None,
        rollover_on_no_winner: None,
        randomness_mode: None,
        verify_mode: None,
        drand_pubkey: None,
        drand_chain_hash: None,
        drand_genesis_time: None,
        drand_period: None,
        authorized_submitters: vec![],
        min_claim_usaf: None,
        reveal_timeout: None,
        open_code_registration: None,
        max_dry_rounds: None,
    }
}

fn new_contract(sender: &str, msg: InstantiateMsg) -> Result<State, ContractError> {
    instantiate(&block(), &from(sender), msg).map(|(state, _)| state)
}

/// A contract with mock randomness and one authorized submitter.
fn setup() -> (State, Env, String, String) {
    setup_with(None)
}

/// The same contract, with code registration open to everyone.
fn setup_open() -> (State, Env, String, String) {
    setup_with(Some(true))
}

fn setup_with(open_code_registration: Option<bool>) -> (State, Env, String, String) {
    let admin = mk("admin");
    let submitter = mk("relayer");
    let msg = InstantiateMsg {
        admin: Some(name(&admin)),
        draw_interval: Some(DRAW_INTERVAL),
        rollover_on_no_winner: Some(true),
        authorized_submitters: vec![name(&submitter)],
        open_code_registration,
        ..empty_msg()
    };
    let state = new_contract(&admin, msg).unwrap();
    (state, block(), admin, submitter)
}

fn buy(
    state: &mut State,
    env: &Env,
    buyer: &str,
    count: u32,
    numbers: Option<Vec<u8>>,
    referral_code: Option<String>,
) -> Result<Response, ContractError> {
    let funds = coins(TICKET_PRICE * count as u128, DENOM);
    execute(
        state,
        env,
        &paying(buyer, funds),
        ExecuteMsg::BuyTickets { count, numbers, referral_code },
    )
}

fn submit(round_id: u64, randomness: Vec<u8>) -> ExecuteMsg {
    ExecuteMsg::SubmitRandomness {
        round_id,
        randomness,
        signature: None,
        pairing: PairingAnswer::DoesNotHold,
    }
}

fn bind_to(referrer: &str) -> ExecuteMsg {
    ExecuteMsg::BindReferrer { referrer: Some(name(referrer)), code: None }
}

/// Closes round 1, submits mock randomness and draws; returns the winning numbers.
fn run_draw(state: &mut State, env: &Env, submitter: &str, randomness: Vec<u8>) -> Vec<u8> {
    let later = advance(env, DRAW_INTERVAL + 1);
    let keeper = mk("keeper");
    execute(state, &later, &from(&keeper), ExecuteMsg::CloseRound {}).unwrap();
    execute(state, &later, &from(submitter), submit(1, randomness.clone())).unwrap();
    execute(state, &later, &from(&keeper), ExecuteMsg::Draw { round_id: 1 }).unwrap();
    derive_winning_numbers(&randomness, 6, 45)
}

fn cfg(state: &State) -> Config {
    match query(state, QueryMsg::Config {}).unwrap() {
        QueryReply::Config(config) => config,
        other => panic!("unexpected reply {:?}", other),
    }
}

fn round(state: &State, id: u64) -> RoundResponse {
    match query(state, QueryMsg::Round { round_id: id }).unwrap() {
        QueryReply::Round(round) => round,
        other => panic!("unexpected reply {:?}", other),
    }
}

fn current(state: &State) -> RoundResponse {
    match query(state, QueryMsg::CurrentRound {}).unwrap() {
        QueryReply::Round(round) => round,
        other => panic!("unexpected reply {:?}", other),
    }
}

fn treasury(state: &State) -> TreasuryBalanceResponse {
    match query(state, QueryMsg::TreasuryBalance {}).unwrap() {
        QueryReply::TreasuryBalance(balance) => balance,
        other => panic!("unexpected reply {:?}", other),
    }
}

fn summary(state: &State, addr: &str) -> ReferralSummaryResponse {
    match query(state, QueryMsg::ReferralSummary { addr: name(addr) }).unwrap() {
        QueryReply::ReferralSummary(summary) => summary,
        other => panic!("unexpected reply {:?}", other),
    }
}

fn prize(state: &State, round_id: u64, owner: &str) -> PrizeResponse {
    match query(state, QueryMsg::Prize { round_id, owner: name(owner) }).unwrap() {
        QueryReply::Prize(prize) => prize,
        other => panic!("unexpected reply {:?}", other),
    }
}

fn referrer_of(state: &State, referee: &str) -> ReferrerResponse {
    match query(state, QueryMsg::Referrer { referee: name(referee) }).unwrap() {
        QueryReply::Referrer(referrer) => referrer,
        other => panic!("unexpected reply {:?}", other),
    }
}

fn tickets(
    state: &State,
    owner: Option<&str>,
    start_after: Option<String>,
    limit: Option<u32>,
) -> TicketsResponse {
    let msg = QueryMsg::Tickets { round_id: 1, owner: owner.map(name), start_after, limit };
    match query(state, msg).unwrap() {
        QueryReply::Tickets(tickets) => tickets,
        other => panic!("unexpected reply {:?}", other),
    }
}

// --- instantiate ------------------------------------------------------------

#[test]
fn instantiate_defaults() {
    let (state, _env, admin, submitter) = setup();
    let c = cfg(&state);
    assert_eq!(c.admin, admin);
    assert_eq!(c.denom, "usaf");
    assert_eq!(c.ticket_price.amount, TICKET_PRICE);
    assert_eq!(c.ticket_price.denom, "usaf");
    assert_eq!(c.numbers_per_ticket, 6);
    assert_eq!(c.number_max, 45);
    assert_eq!(c.split, FundSplitBps::default_split());
    assert!(c.rollover_on_no_winner);
    assert!(!c.paused);
    assert!(matches!(c.randomness_mode, RandomnessMode::Mock));
    assert!(matches!(c.verify_mode, VerifyMode::Dev));
    assert!(c.is_submitter(&submitter));
    assert!(c.is_submitter(&admin));
    assert_eq!(c.min_claim_usaf, 0);

    let r = current(&state);
    assert_eq!(r.id, 1);
    assert_eq!(r.status, RoundStatus::Open);
    assert_eq!(r.pool, 0);

    let tb = treasury(&state);
    assert_eq!(tb.balance, 0);
    assert_eq!(tb.denom, "usaf");

    assert_eq!(state.version.contract, CONTRACT_NAME);
    assert_eq!(state.version.version, CONTRACT_VERSION);
}

#[test]
fn instantiate_defaults_admin_to_sender() {
    let sender = mk("sender");
    let state = new_contract(&sender, empty_msg()).unwrap();
    let c = cfg(&state);
    assert_eq!(c.admin, sender);
    assert_eq!(c.draw_interval, DEFAULT_DRAW_INTERVAL_SECONDS);
}

#[test]
fn instantiate_rejects_bad_ticket_denom() {
    let msg = InstantiateMsg {
        ticket_price: Some(Coin { denom: "uatom".to_string(), amount: 1 }),
        ..empty_msg()
    };
    let err = new_contract(&mk("admin"), msg).unwrap_err();
    assert!(matches!(err, ContractError::InvalidConfig { .. }));
}

#[test]
fn instantiate_rejects_bad_split() {
    let msg = InstantiateMsg {
        split: Some(FundSplitBps::new_unchecked(5000, 1000, 1500)),
        ..empty_msg()
    };
    let err = new_contract(&mk("admin"), msg).unwrap_err();
    assert!(matches!(err, ContractError::Shared(_)));
}

#[test]
fn instantiate_drand_requires_chain_hash_and_pubkey() {
    // Missing chain hash.
    let msg = InstantiateMsg {
        randomness_mode: Some(RandomnessMode::Drand),
        verify_mode: Some(VerifyMode::Bls),
        drand_pubkey: Some(vec![1u8; G1_LEN]),
        drand_chain_hash: None,
        ..empty_msg()
    };
    let err = new_contract(&mk("admin"), msg).unwrap_err();
    assert!(matches!(err, ContractError::InvalidConfig { .. }));

    // Bad key length.
    let msg = InstantiateMsg {
        randomness_mode: Some(RandomnessMode::Drand),
        verify_mode: Some(VerifyMode::Bls),
        drand_pubkey: Some(vec![1u8; 10]),
        drand_chain_hash: Some("abcd".to_string()),
        ..empty_msg()
    };
    let err = new_contract(&mk("admin"), msg).unwrap_err();
    assert!(matches!(err, ContractError::InvalidPubkey { .. }));
}

// --- buy --------------------------------------------------------------------

#[test]
fn buy_splits_75_10_15_no_referrer_folds_referral() {
    let (mut state, env, _admin, _sub) = setup();
    let buyer = mk("buyer");

    buy(&mut state, &env, &buyer, 2, None, None).unwrap();

    let total = 2 * TICKET_PRICE;
    let r = current(&state);
    assert_eq!(r.pool, total * 8500 / 10000);
    assert_eq!(r.ticket_count, 2);
    assert_eq!(r.player_count, 1);
    assert_eq!(treasury(&state).balance, total * 1500 / 10000);
}

#[test]
fn buy_credits_referrer_and_treasury() {
    let (mut state, env, _admin, _sub) = setup();
    let buyer = mk("buyer");
    let referrer = mk("referrer");

    execute(&mut state, &env, &from(&buyer), bind_to(&referrer)).unwrap();
    buy(&mut state, &env, &buyer, 2, None, None).unwrap();

    let total = 2 * TICKET_PRICE;
    assert_eq!(current(&state).pool, total * 7500 / 10000);

    let s = summary(&state, &referrer);
    assert_eq!(s.pending, total * 1000 / 10000);
    assert_eq!(s.lifetime_earned, total * 1000 / 10000);
    assert_eq!(s.referees, 1);

    assert_eq!(treasury(&state).balance, total * 1500 / 10000);
}

#[test]
fn buy_by_code_binds_and_credits() {
    let (mut state, env, _admin, _sub) = setup_open();
    let buyer = mk("buyer");
    let referrer = mk("referrer");

    execute(
        &mut state,
        &env,
        &from(&referrer),
        ExecuteMsg::RegisterCode { code: "WinBig".to_string() },
    )
    .unwrap();

    // The case of the code does not matter.
    buy(&mut state, &env, &buyer, 1, None, Some("winbig".to_string())).unwrap();

    let s = summary(&state, &referrer);
    assert_eq!(s.pending, TICKET_PRICE * 1000 / 10000);
    assert_eq!(s.referees, 1);
    assert_eq!(referrer_of(&state, &buyer).referrer, Some(referrer));
}

#[test]
fn buy_wrong_payment_rejected() {
    let (mut state, env, _admin, _sub) = setup();
    let info = paying(&mk("buyer"), coins(TICKET_PRICE, DENOM));
    let msg = ExecuteMsg::BuyTickets { count: 2, numbers: None, referral_code: None };
    let err = execute(&mut state, &env, &info, msg).unwrap_err();
    assert!(matches!(err, ContractError::Shared(_)));
}

#[test]
fn buy_foreign_denom_rejected() {
    let (mut state, env, _admin, _sub) = setup();
    let info = paying(&mk("buyer"), coins(TICKET_PRICE, "uatom"));
    let msg = ExecuteMsg::BuyTickets { count: 1, numbers: None, referral_code: None };
    let err = execute(&mut state, &env, &info, msg).unwrap_err();
    assert!(matches!(err, ContractError::Shared(_)));
}

#[test]
fn buy_zero_count_rejected() {
    let (mut state, env, _admin, _sub) = setup();
    let msg = ExecuteMsg::BuyTickets { count: 0, numbers: None, referral_code: None };
    let err = execute(&mut state, &env, &from(&mk("buyer")), msg).unwrap_err();
    assert!(matches!(err, ContractError::InvalidTicketCount { .. }));
}

#[test]
fn buy_too_many_rejected() {
    let (mut state, env, _admin, _sub) = setup();
    let info = paying(&mk("buyer"), coins(TICKET_PRICE * 101, DENOM));
    let msg = ExecuteMsg::BuyTickets { count: 101, numbers: None, referral_code: None };
    let err = execute(&mut state, &env, &info, msg).unwrap_err();
    assert!(matches!(err, ContractError::InvalidTicketCount { .. }));
}

#[test]
fn buy_custom_numbers_validated_and_sorted() {
    let (mut state, env, _admin, _sub) = setup();
    let buyer = mk("buyer");

    // Wrong count.
    let err = buy(&mut state, &env, &buyer, 1, Some(vec![1, 2, 3]), None).unwrap_err();
    assert!(matches!(err, ContractError::InvalidNumbers { .. }));

    // Valid and unsorted: stored sorted.
    buy(&mut state, &env, &buyer, 1, Some(vec![6, 5, 4, 3, 2, 1]), None).unwrap();
    let page = tickets(&state, Some(&buyer), None, None);
    assert_eq!(page.tickets.len(), 1);
    assert_eq!(page.tickets[0].ticket.numbers, vec![1, 2, 3, 4, 5, 6]);
}

#[test]
fn buy_duplicate_numbers_rejected() {
    let (mut state, env, _admin, _sub) = setup();
    let err = buy(&mut state, &env, &mk("buyer"), 1, Some(vec![1, 1, 2, 3, 4, 5]), None)
        .unwrap_err();
    assert!(matches!(err, ContractError::InvalidNumbers { .. }));
}

#[test]
fn buy_out_of_range_number_rejected() {
    let (mut state, env, _admin, _sub) = setup();
    let err = buy(&mut state, &env, &mk("buyer"), 1, Some(vec![1, 2, 3, 4, 5, 46]), None)
        .unwrap_err();
    assert!(matches!(err, ContractError::InvalidNumbers { .. }));
}

#[test]
fn buy_first_ticket_custom_rest_quickpicked() {
    let (mut state, env, _admin, _sub) = setup();
    buy(&mut state, &env, &mk("buyer"), 3, Some(vec![1, 2, 3, 4, 5, 6]), None).unwrap();
    let page = tickets(&state, None, None, None);
    assert_eq!(page.tickets.len(), 3);
    assert_eq!(page.tickets[0].ticket.numbers, vec![1, 2, 3, 4, 5, 6]);
    for t in &page.tickets[1..] {
        assert_eq!(t.ticket.numbers.len(), 6);
        assert!(t.ticket.numbers.iter().all(|n| (1..=45).contains(n)));
    }
}

// --- pause ------------------------------------------------------------------

#[test]
fn pause_blocks_buys_unpause_restores() {
    let (mut state, env, admin, _sub) = setup();
    let buyer = mk("buyer");

    execute(&mut state, &env, &from(&admin), ExecuteMsg::Pause {}).unwrap();
    let err = buy(&mut state, &env, &buyer, 1, None, None).unwrap_err();
    assert!(matches!(err, ContractError::Paused));

    execute(&mut state, &env, &from(&admin), ExecuteMsg::Unpause {}).unwrap();
    buy(&mut state, &env, &buyer, 1, None, None).unwrap();
}

#[test]
fn pause_admin_only() {
    let (mut state, env, _admin, _sub) = setup();
    let err = execute(&mut state, &env, &from(&mk("notadmin")), ExecuteMsg::Pause {}).unwrap_err();
    assert!(matches!(err, ContractError::Unauthorized { .. }));
}

// --- close ------------------------------------------------------------------

#[test]
fn close_requires_elapsed_window() {
    let (mut state, env, _admin, _sub) = setup();
    let anyone = mk("anyone");

    let err = execute(&mut state, &env, &from(&anyone), ExecuteMsg::CloseRound {}).unwrap_err();
    assert!(matches!(err, ContractError::RoundNotClosed { .. }));

    let later = advance(&env, DRAW_INTERVAL + 1);
    execute(&mut state, &later, &from(&anyone), ExecuteMsg::CloseRound {}).unwrap();
    assert_eq!(round(&state, 1).status, RoundStatus::Drawing);
}

#[test]
fn buy_rejected_after_close() {
    let (mut state, env, _admin, _sub) = setup();
    let buyer = mk("buyer");
    let later = advance(&env, DRAW_INTERVAL + 1);
    execute(&mut state, &later, &from(&buyer), ExecuteMsg::CloseRound {}).unwrap();
    let err = buy(&mut state, &later, &buyer, 1, None, None).unwrap_err();
    assert!(matches!(err, ContractError::RoundNotOpen { .. }));
}

// --- randomness -------------------------------------------------------------

#[test]
fn submit_randomness_authorized_only() {
    let (mut state, env, _admin, _sub) = setup();
    let later = advance(&env, DRAW_INTERVAL + 1);
    execute(&mut state, &later, &from(&mk("buyer")), ExecuteMsg::CloseRound {}).unwrap();
    let err = execute(&mut state, &later, &from(&mk("stranger")), submit(1, vec![1u8; 32]))
        .unwrap_err();
    assert!(matches!(err, ContractError::UnauthorizedSubmitter));
}

#[test]
fn submit_randomness_mock_length_checked() {
    let (mut state, env, _admin, submitter) = setup();
    let later = advance(&env, DRAW_INTERVAL + 1);
    execute(&mut state, &later, &from(&submitter), ExecuteMsg::CloseRound {}).unwrap();
    let err =
        execute(&mut state, &later, &from(&submitter), submit(1, vec![1u8; 16])).unwrap_err();
    assert!(matches!(err, ContractError::InvalidRandomnessLength { .. }));

    execute(&mut state, &later, &from(&submitter), submit(1, vec![1u8; 32])).unwrap();
    let r = round(&state, 1);
    assert!(matches!(r.randomness.unwrap().status, RandomnessStatus::Fulfilled));
}

#[test]
fn double_submit_randomness_rejected() {
    let (mut state, env, _admin, submitter) = setup();
    let later = advance(&env, DRAW_INTERVAL + 1);
    execute(&mut state, &later, &from(&submitter), ExecuteMsg::CloseRound {}).unwrap();
    execute(&mut state, &later, &from(&submitter), submit(1, vec![2u8; 32])).unwrap();
    let err =
        execute(&mut state, &later, &from(&submitter), submit(1, vec![2u8; 32])).unwrap_err();
    assert!(matches!(err, ContractError::AlreadyFulfilled { .. }));
}

#[test]
fn submit_before_close_rejected() {
    let (mut state, env, _admin, submitter) = setup();
    let err = execute(&mut state, &env, &from(&submitter), submit(1, vec![1u8; 32])).unwrap_err();
    assert!(matches!(err, ContractError::RoundNotFound { .. }));
}

#[test]
fn draw_before_randomness_rejected() {
    let (mut state, env, _admin, _sub) = setup();
    let later = advance(&env, DRAW_INTERVAL + 1);
    let keeper = mk("keeper");
    execute(&mut state, &later, &from(&keeper), ExecuteMsg::CloseRound {}).unwrap();
    let err =
        execute(&mut state, &later, &from(&keeper), ExecuteMsg::Draw { round_id: 1 }).unwrap_err();
    assert!(matches!(err, ContractError::VerificationFailed { .. }));
}

#[test]
fn commit_reveal_flow() {
    let env = block();
    let admin = mk("admin");
    let submitter = mk("operator");
    let mut state = new_contract(
        &admin,
        InstantiateMsg {
            admin: Some(name(&admin)),
            draw_interval: Some(DRAW_INTERVAL),
            randomness_mode: Some(RandomnessMode::CommitReveal),
            verify_mode: Some(VerifyMode::Dev),
            authorized_submitters: vec![name(&submitter)],
            ..empty_msg()
        },
    )
    .unwrap();

    let later = advance(&env, DRAW_INTERVAL + 1);
    execute(&mut state, &later, &from(&submitter), ExecuteMsg::CloseRound {}).unwrap();

    // Direct submission does not belong to this mode.
    let err =
        execute(&mut state, &later, &from(&submitter), submit(1, vec![1u8; 32])).unwrap_err();
    assert!(matches!(err, ContractError::WrongMode { .. }));

    // Commit.
    let value = vec![0xABu8; 32];
    let commitment = sha256(&value).to_vec();
    execute(
        &mut state,
        &later,
        &from(&submitter),
        ExecuteMsg::CommitRandomness { round_id: 1, commitment },
    )
    .unwrap();

    // Wrong reveal.
    let err = execute(
        &mut state,
        &later,
        &from(&submitter),
        ExecuteMsg::RevealRandomness { round_id: 1, value: vec![0u8; 32] },
    )
    .unwrap_err();
    assert!(matches!(err, ContractError::RevealMismatch));

    // Correct reveal.
    execute(
        &mut state,
        &later,
        &from(&submitter),
        ExecuteMsg::RevealRandomness { round_id: 1, value: value.clone() },
    )
    .unwrap();
    let req = round(&state, 1).randomness.unwrap();
    assert!(matches!(req.status, RandomnessStatus::Fulfilled));
    assert_eq!(req.randomness.unwrap(), sha256(&value).to_vec());

    // Draw.
    execute(&mut state, &later, &from(&admin), ExecuteMsg::Draw { round_id: 1 }).unwrap();
    assert_eq!(round(&state, 1).status, RoundStatus::Settled);
}

// --- draw -------------------------------------------------------------------

#[test]
fn draw_computes_matches_tiers_and_opens_next_round() {
    let (mut state, env, _admin, submitter) = setup();
    let buyer = mk("buyer");
    let randomness = vec![7u8; 32];
    let winning = derive_winning_numbers(&randomness, 6, 45);

    buy(&mut state, &env, &buyer, 1, Some(winning.clone()), None).unwrap();
    buy(&mut state, &env, &mk("buyer2"), 1, None, None).unwrap();

    let derived = run_draw(&mut state, &env, &submitter, randomness);
    assert_eq!(derived, winning);

    assert_eq!(current(&state).id, 2);
    let r1 = round(&state, 1);
    assert_eq!(r1.status, RoundStatus::Settled);
    assert_eq!(r1.winning_numbers.unwrap(), winning);
    assert!(r1.winning_tickets >= 1);
    assert!(r1.prize_tiers.tier_6 > 0);

    let p = prize(&state, 1, &buyer);
    assert!(p.claimable > 0);
    assert_eq!(p.claimed, 0);
}

#[test]
fn draw_rollover_on_no_jackpot() {
    let (mut state, env, _admin, submitter) = setup();
    let buyer = mk("buyer");
    buy(&mut state, &env, &buyer, 1, Some(vec![1, 2, 3, 4, 5, 6]), None).unwrap();

    let randomness = vec![0x11u8; 32];
    let winning = derive_winning_numbers(&randomness, 6, 45);
    let matches = winning.iter().filter(|w| [1, 2, 3, 4, 5, 6].contains(*w)).count();

    run_draw(&mut state, &env, &submitter, randomness);

    let r1 = round(&state, 1);
    let r2 = round(&state, 2);
    if matches < 6 {
        assert!(r2.pool > 0);
        assert_eq!(r2.rolled_over_from, Some(1));
        assert!(r1.pool <= TICKET_PRICE);
    } else {
        assert!(r2.pool == 0 || r2.rolled_over_from.is_none());
    }
}

#[test]
fn draw_no_rollover_when_disabled() {
    let env = block();
    let admin = mk("admin");
    let submitter = mk("relayer");
    let mut state = new_contract(
        &admin,
        InstantiateMsg {
            admin: Some(name(&admin)),
            draw_interval: Some(DRAW_INTERVAL),
            rollover_on_no_winner: Some(false),
            authorized_submitters: vec![name(&submitter)],
            ..empty_msg()
        },
    )
    .unwrap();
    buy(&mut state, &env, &mk("buyer"), 1, Some(vec![1, 2, 3, 4, 5, 6]), None).unwrap();

    run_draw(&mut state, &env, &submitter, vec![0x22u8; 32]);
    let r2 = round(&state, 2);
    assert_eq!(r2.rolled_over_from, None);
    assert_eq!(r2.pool, 0);
}

// --- claim ------------------------------------------------------------------

#[test]
fn claim_once_guard_and_payout() {
    let (mut state, env, _admin, submitter) = setup();
    let buyer = mk("buyer");
    let randomness = vec![7u8; 32];
    let winning = derive_winning_numbers(&randomness, 6, 45);
    buy(&mut state, &env, &buyer, 1, Some(winning), None).unwrap();

    let later = advance(&env, DRAW_INTERVAL + 1);
    run_draw(&mut state, &env, &submitter, randomness);

    let id = ticket_id(0);
    let res = execute(
        &mut state,
        &later,
        &from(&buyer),
        ExecuteMsg::ClaimReward { round_id: 1, ticket_id: id.clone() },
    )
    .unwrap();
    assert!(res.messages.iter().any(|m| m.to_address == buyer));

    let err = execute(
        &mut state,
        &later,
        &from(&buyer),
        ExecuteMsg::ClaimReward { round_id: 1, ticket_id: id },
    )
    .unwrap_err();
    assert!(matches!(err, ContractError::AlreadyClaimed { .. }));
}

#[test]
fn claim_zero_prize_rejected() {
    let (mut state, env, _admin, submitter) = setup();
    let buyer = mk("buyer");
    buy(&mut state, &env, &buyer, 1, Some(vec![1, 2, 3, 4, 5, 6]), None).unwrap();
    run_draw(&mut state, &env, &submitter, vec![0x33u8; 32]);

    if prize(&state, 1, &buyer).claimable == 0 {
        let err = execute(
            &mut state,
            &env,
            &from(&buyer),
            ExecuteMsg::ClaimReward { round_id: 1, ticket_id: ticket_id(0) },
        )
        .unwrap_err();
        assert!(matches!(err, ContractError::NoPrize { .. }));
    }
}

#[test]
fn claim_non_owner_rejected() {
    let (mut state, env, _admin, submitter) = setup();
    let randomness = vec![7u8; 32];
    let winning = derive_winning_numbers(&randomness, 6, 45);
    buy(&mut state, &env, &mk("buyer"), 1, Some(winning), None).unwrap();
    run_draw(&mut state, &env, &submitter, randomness);

    let err = execute(
        &mut state,
        &env,
        &from(&mk("stranger")),
        ExecuteMsg::ClaimReward { round_id: 1, ticket_id: ticket_id(0) },
    )
    .unwrap_err();
    assert!(matches!(err, ContractError::Unauthorized { .. }));
}

#[test]
fn claim_unknown_ticket_rejected() {
    let (mut state, env, _admin, _sub) = setup();
    let err = execute(
        &mut state,
        &env,
        &from(&mk("buyer")),
        ExecuteMsg::ClaimReward { round_id: 1, ticket_id: ticket_id(999) },
    )
    .unwrap_err();
    assert!(matches!(err, ContractError::TicketNotFound { .. }));
}

// --- referral ---------------------------------------------------------------

#[test]
fn bind_is_immutable() {
    let (mut state, env, _admin, _sub) = setup();
    let referee = mk("referee");
    execute(&mut state, &env, &from(&referee), bind_to(&mk("r1"))).unwrap();
    let err = execute(&mut state, &env, &from(&referee), bind_to(&mk("r2"))).unwrap_err();
    assert!(matches!(err, ContractError::AlreadyBound { .. }));
}

#[test]
fn bind_self_referral_blocked() {
    let (mut state, env, _admin, _sub) = setup();
    let referee = mk("referee");
    let err = execute(&mut state, &env, &from(&referee), bind_to(&referee)).unwrap_err();
    assert!(matches!(err, ContractError::SelfReferral));
}

#[test]
fn bind_requires_referrer_or_code() {
    let (mut state, env, _admin, _sub) = setup();
    let msg = ExecuteMsg::BindReferrer { referrer: None, code: None };
    let err = execute(&mut state, &env, &from(&mk("referee")), msg).unwrap_err();
    assert!(matches!(err, ContractError::InvalidConfig { .. }));
}

#[test]
fn bind_by_unknown_code_fails() {
    let (mut state, env, _admin, _sub) = setup();
    let msg = ExecuteMsg::BindReferrer { referrer: None, code: Some("nope".to_string()) };
    let err = execute(&mut state, &env, &from(&mk("referee")), msg).unwrap_err();
    assert!(matches!(err, ContractError::UnknownReferralCode { .. }));
}

#[test]
fn register_code_conflict_for_other_owner() {
    let (mut state, env, _admin, _sub) = setup_open();
    let msg = ExecuteMsg::RegisterCode { code: "dup".to_string() };
    execute(&mut state, &env, &from(&mk("a")), msg).unwrap();
    let msg = ExecuteMsg::RegisterCode { code: "DUP".to_string() };
    let err = execute(&mut state, &env, &from(&mk("b")), msg).unwrap_err();
    assert!(matches!(err, ContractError::Unauthorized { .. }));
}

#[test]
fn referral_claim_pays_and_zeroes() {
    let (mut state, env, _admin, _sub) = setup();
    let buyer = mk("buyer");
    let referrer = mk("referrer");
    execute(&mut state, &env, &from(&buyer), bind_to(&referrer)).unwrap();
    buy(&mut state, &env, &buyer, 1, None, None).unwrap();

    let earned = TICKET_PRICE * 1000 / 10000;
    let res = execute(&mut state, &env, &from(&referrer), ExecuteMsg::ClaimReferral {}).unwrap();
    assert!(res
        .messages
        .iter()
        .any(|m| m.to_address == referrer && m.amount[0].amount == earned));

    let s = summary(&state, &referrer);
    assert_eq!(s.pending, 0);
    assert_eq!(s.lifetime_claimed, earned);
}

#[test]
fn referral_claim_nothing_fails() {
    let (mut state, env, _admin, _sub) = setup();
    let err = execute(&mut state, &env, &from(&mk("referrer")), ExecuteMsg::ClaimReferral {})
        .unwrap_err();
    assert!(matches!(err, ContractError::NothingToClaim));
}

#[test]
fn referral_claim_below_floor_fails() {
    let env = block();
    let admin = mk("admin");
    let mut state = new_contract(
        &admin,
        InstantiateMsg {
            admin: Some(name(&admin)),
            draw_interval: Some(DRAW_INTERVAL),
            min_claim_usaf: Some(10_000_000),
            ..empty_msg()
        },
    )
    .unwrap();
    let buyer = mk("buyer");
    let referrer = mk("referrer");
    execute(&mut state, &env, &from(&buyer), bind_to(&referrer)).unwrap();
    buy(&mut state, &env, &buyer, 1, None, None).unwrap();

    let err =
        execute(&mut state, &env, &from(&referrer), ExecuteMsg::ClaimReferral {}).unwrap_err();
    assert!(matches!(err, ContractError::NothingToClaim));
}

#[test]
fn referrer_query_reflects_binding() {
    let (mut state, env, _admin, _sub) = setup();
    let referee = mk("referee");
    let referrer = mk("referrer");
    execute(&mut state, &env, &from(&referee), bind_to(&referrer)).unwrap();
    assert_eq!(referrer_of(&state, &referee).referrer, Some(referrer));
}

// --- treasury ---------------------------------------------------------------

#[test]
fn withdraw_treasury_admin_only_and_bounded() {
    let (mut state, env, admin, _sub) = setup();
    let recipient = mk("recipient");
    buy(&mut state, &env, &mk("buyer"), 1, None, None).unwrap();
    let balance = TICKET_PRICE * 1500 / 10000;
    let withdraw = |amount: u128| ExecuteMsg::WithdrawTreasury { to: name(&recipient), amount };

    let err = execute(&mut state, &env, &from(&mk("stranger")), withdraw(1)).unwrap_err();
    assert!(matches!(err, ContractError::Unauthorized { .. }));

    let err = execute(&mut state, &env, &from(&admin), withdraw(0)).unwrap_err();
    assert!(matches!(err, ContractError::ZeroWithdraw));

    let err = execute(&mut state, &env, &from(&admin), withdraw(balance + 1)).unwrap_err();
    assert!(matches!(err, ContractError::InsufficientTreasury { .. }));

    let res = execute(&mut state, &env, &from(&admin), withdraw(100_000)).unwrap();
    assert!(res
        .messages
        .iter()
        .any(|m| m.to_address == recipient && m.amount[0].amount == 100_000));
    assert_eq!(treasury(&state).balance, balance - 100_000);
}

// --- set_config -------------------------------------------------------------

fn set_config_none() -> ExecuteMsg {
    ExecuteMsg::SetConfig {
        admin: None,
        ticket_price: None,
        draw_interval: None,
        split: None,
        rollover_on_no_winner: None,
        randomness_mode: None,
        verify_mode: None,
        drand_pubkey: None,
        drand_chain_hash: None,
        drand_genesis_time: None,
        drand_period: None,
        min_claim_usaf: None,
        reveal_timeout: None,
        open_code_registration: None,
        max_dry_rounds: None,
        add_submitters: None,
        remove_submitters: None,
    }
}

#[test]
fn set_config_admin_only_and_validates_split() {
    let (mut state, env, admin, _sub) = setup();

    let err = execute(&mut state, &env, &from(&mk("notadmin")), set_config_none()).unwrap_err();
    assert!(matches!(err, ContractError::Unauthorized { .. }));

    let mut msg = set_config_none();
    if let ExecuteMsg::SetConfig { split, .. } = &mut msg {
        *split = Some(FundSplitBps::new_unchecked(5000, 1000, 1500));
    }
    let err = execute(&mut state, &env, &from(&admin), msg).unwrap_err();
    assert!(matches!(err, ContractError::Shared(_)));

    let mut msg = set_config_none();
    if let ExecuteMsg::SetConfig { draw_interval, rollover_on_no_winner, .. } = &mut msg {
        *draw_interval = Some(7200);
        *rollover_on_no_winner = Some(false);
    }
    execute(&mut state, &env, &from(&admin), msg).unwrap();
    let c = cfg(&state);
    assert_eq!(c.draw_interval, 7200);
    assert!(!c.rollover_on_no_winner);
}

#[test]
fn set_config_add_remove_submitters() {
    let (mut state, env, admin, _sub) = setup();
    let new_sub = mk("new_sub");

    let mut msg = set_config_none();
    if let ExecuteMsg::SetConfig { add_submitters, .. } = &mut msg {
        *add_submitters = Some(vec![name(&new_sub)]);
    }
    execute(&mut state, &env, &from(&admin), msg).unwrap();
    assert!(cfg(&state).is_submitter(&new_sub));

    let mut msg = set_config_none();
    if let ExecuteMsg::SetConfig { remove_submitters, .. } = &mut msg {
        *remove_submitters = Some(vec![name(&new_sub)]);
    }
    execute(&mut state, &env, &from(&admin), msg).unwrap();
    assert!(!cfg(&state).is_submitter(&new_sub));
}

// --- migrate ----------------------------------------------------------------

#[test]
fn migrate_bumps_version() {
    let (mut state, _env, _admin, _sub) = setup();
    let res = migrate(&mut state, MigrateMsg {}).unwrap();
    assert!(res.events.iter().any(|e| e.ty == "winsaf/migrate"));
    assert_eq!(state.version.contract, CONTRACT_NAME);
    assert_eq!(state.version.version, CONTRACT_VERSION);
}

#[test]
fn migrate_wrong_contract_rejected() {
    let (mut state, _env, _admin, _sub) = setup();
    state.version = ContractVersion {
        contract: "crates.io:some-other".to_string(),
        version: "0.1.0".to_string(),
    };
    let err = migrate(&mut state, MigrateMsg {}).unwrap_err();
    assert!(matches!(err, ContractError::InvalidMigration { .. }));
}

// --- full lifecycle ---------------------------------------------------------

#[test]
fn full_lifecycle_buy_close_submit_draw_claim() {
    let (mut state, env, admin, submitter) = setup();
    let buyer = mk("buyer");
    let referrer = mk("referrer");
    let randomness = vec![7u8; 32];
    let winning = derive_winning_numbers(&randomness, 6, 45);

    execute(&mut state, &env, &from(&buyer), bind_to(&referrer)).unwrap();
    buy(&mut state, &env, &buyer, 1, Some(winning), None).unwrap();
    assert_eq!(summary(&state, &referrer).pending, TICKET_PRICE * 1000 / 10000);

    run_draw(&mut state, &env, &submitter, randomness);
    assert_eq!(round(&state, 1).status, RoundStatus::Settled);

    execute(
        &mut state,
        &env,
        &from(&buyer),
        ExecuteMsg::ClaimReward { round_id: 1, ticket_id: ticket_id(0) },
    )
    .unwrap();

    execute(
        &mut state,
        &env,
        &from(&admin),
        ExecuteMsg::WithdrawTreasury {
            to: name(&mk("ops")),
            amount: TICKET_PRICE * 1500 / 10000,
        },
    )
    .unwrap();
    assert_eq!(treasury(&state).balance, 0);
}

// --- replies and refusals in detail -----------------------------------------

fn attributes(response: &Response) -> Vec<(&str, &str)> {
    assert_eq!(response.events.len(), 1);
    response.events[0].attributes.iter().map(|a| (a.key.as_str(), a.value.as_str())).collect()
}

fn invalid_config(reason: &str) -> ContractError {
    ContractError::InvalidConfig { reason: reason.to_string() }
}

fn overflow(operation: OverflowOperation) -> ContractError {
    ContractError::Overflow(OverflowError { operation })
}

/// Everything that the contract accounts for.
fn held(state: &State) -> u128 {
    let pools: u128 = state.rounds.iter().map(|l| l.round.pool).sum();
    let owed: u128 = state.earnings.entries.iter().map(|e| e.value).sum();
    state.treasury + pools + owed
}

#[test]
fn instantiate_reports_the_new_contract() {
    let admin = mk("admin");
    let (state, res) = instantiate(&block(), &from(&admin), empty_msg()).unwrap();
    assert_eq!(res.events[0].ty, "winsaf/instantiate");
    assert_eq!(
        attributes(&res),
        vec![
            ("admin", admin.as_str()),
            ("denom", "usaf"),
            ("ticket_price", "5000000"),
            ("numbers_per_ticket", "6"),
            ("number_max", "45"),
            ("randomness_mode", "mock"),
            ("round_id", "1"),
        ]
    );
    assert!(res.messages.is_empty());
    let r = current(&state);
    assert_eq!(r.opens_at, 1571797419);
    assert_eq!(r.closes_at, 1571797419 + 86400);
    assert!(state.is_well_formed());
}

#[test]
fn instantiate_refuses_in_order() {
    let refusal = |msg: InstantiateMsg| new_contract(&mk("admin"), msg).unwrap_err();
    assert!(matches!(
        refusal(InstantiateMsg { admin: Some(name("no address")), ..empty_msg() }),
        ContractError::Std(_)
    ));
    assert_eq!(
        refusal(InstantiateMsg { denom: Some(String::new()), ..empty_msg() }),
        invalid_config("denom must not be empty")
    );
    assert_eq!(
        refusal(InstantiateMsg {
            ticket_price: Some(Coin { denom: "uatom".to_string(), amount: 0 }),
            ..empty_msg()
        }),
        invalid_config("ticket_price denom must be 'usaf'")
    );
    assert_eq!(
        refusal(InstantiateMsg {
            ticket_price: Some(Coin { denom: "usaf".to_string(), amount: 0 }),
            ..empty_msg()
        }),
        invalid_config("ticket_price must be non-zero")
    );
    assert_eq!(
        refusal(InstantiateMsg { draw_interval: Some(0), ..empty_msg() }),
        invalid_config("draw_interval must be non-zero")
    );
    assert_eq!(
        refusal(InstantiateMsg { numbers_per_ticket: Some(46), ..empty_msg() }),
        invalid_config("number_max must be >= numbers_per_ticket")
    );
    assert!(matches!(
        refusal(InstantiateMsg { authorized_submitters: vec![name("bad")], ..empty_msg() }),
        ContractError::Std(_)
    ));
    assert_eq!(
        refusal(InstantiateMsg { draw_interval: Some(u64::MAX), ..empty_msg() }),
        invalid_config("draw_interval overflows round close time")
    );
}

#[test]
fn submitters_are_listed_once() {
    let a = mk("a");
    let b = mk("b");
    let msg = InstantiateMsg {
        authorized_submitters: vec![name(&a), name(&b), name(&a)],
        ..empty_msg()
    };
    let state = new_contract(&mk("admin"), msg).unwrap();
    assert_eq!(cfg(&state).authorized_submitters, vec![a, b]);
}

#[test]
fn buy_reports_the_purchase() {
    let (mut state, env, _admin, _sub) = setup();
    let buyer = mk("buyer");
    let res = buy(&mut state, &env, &buyer, 2, None, None).unwrap();
    assert_eq!(res.events[0].ty, "winsaf/buy");
    assert_eq!(
        attributes(&res),
        vec![
            ("round_id", "1"),
            ("buyer", buyer.as_str()),
            ("count", "2"),
            ("paid", "10000000"),
            ("prize_added", "8500000"),
            ("treasury_added", "1500000"),
            ("referral_credited", "0"),
            ("referrer", ""),
            ("pool", "8500000"),
            ("first_ticket_id", "000000000000"),
            ("last_ticket_id", "000000000001"),
            ("new_player", "true"),
        ]
    );
    let res = buy(&mut state, &env, &buyer, 1, None, None).unwrap();
    assert_eq!(attributes(&res)[9..], [
        ("first_ticket_id", "000000000002"),
        ("last_ticket_id", "000000000002"),
        ("new_player", "false"),
    ]);
    let r = current(&state);
    assert_eq!(r.ticket_count, 3);
    assert_eq!(r.player_count, 1);
}

#[test]
fn buy_reports_the_referrer() {
    let (mut state, env, _admin, _sub) = setup();
    let buyer = mk("buyer");
    let referrer = mk("referrer");
    execute(&mut state, &env, &from(&buyer), bind_to(&referrer)).unwrap();
    let res = buy(&mut state, &env, &buyer, 1, None, None).unwrap();
    assert_eq!(attributes(&res)[4..9], [
        ("prize_added", "3750000"),
        ("treasury_added", "750000"),
        ("referral_credited", "500000"),
        ("referrer", referrer.as_str()),
        ("pool", "3750000"),
    ]);
}

#[test]
fn quick_picked_tickets_follow_the_sequence() {
    let (mut state, env, _admin, _sub) = setup();
    let buyer = mk("buyer");
    buy(&mut state, &env, &buyer, 2, None, None).unwrap();
    let page = tickets(&state, None, None, None);
    assert_eq!(page.tickets[0].ticket.numbers, quick_pick(&env, &buyer, 1, 0, 6, 45));
    assert_eq!(page.tickets[1].ticket.numbers, quick_pick(&env, &buyer, 1, 1, 6, 45));
}

#[test]
fn own_code_is_ignored_in_a_purchase() {
    let (mut state, env, _admin, _sub) = setup_open();
    let buyer = mk("buyer");
    let msg = ExecuteMsg::RegisterCode { code: "mine".to_string() };
    execute(&mut state, &env, &from(&buyer), msg).unwrap();
    buy(&mut state, &env, &buyer, 1, None, Some("mine".to_string())).unwrap();
    assert_eq!(current(&state).pool, 4_250_000);
    assert_eq!(summary(&state, &buyer).pending, 0);
    assert_eq!(referrer_of(&state, &buyer).referrer, None);
}

#[test]
fn existing_binding_wins_over_a_code() {
    let (mut state, env, _admin, _sub) = setup_open();
    let buyer = mk("buyer");
    let first = mk("first");
    let second = mk("second");
    execute(&mut state, &env, &from(&buyer), bind_to(&first)).unwrap();
    let msg = ExecuteMsg::RegisterCode { code: "second".to_string() };
    execute(&mut state, &env, &from(&second), msg).unwrap();
    buy(&mut state, &env, &buyer, 1, None, Some("second".to_string())).unwrap();
    assert_eq!(summary(&state, &first).pending, 500_000);
    assert_eq!(summary(&state, &second).pending, 0);
    assert_eq!(summary(&state, &second).referees, 0);
    assert_eq!(referrer_of(&state, &buyer).referrer, Some(first));
}

#[test]
fn unknown_code_folds_the_referral_share() {
    let (mut state, env, _admin, _sub) = setup();
    buy(&mut state, &env, &mk("buyer"), 1, None, Some("nobody".to_string())).unwrap();
    assert_eq!(current(&state).pool, 4_250_000);
}

#[test]
fn code_in_any_case_binds_once() {
    let (mut state, env, _admin, _sub) = setup_open();
    let referrer = mk("referrer");
    let msg = ExecuteMsg::RegisterCode { code: " Lucky-7 ".to_string() };
    let res = execute(&mut state, &env, &from(&referrer), msg).unwrap();
    assert_eq!(attributes(&res), vec![("code", "lucky-7"), ("owner", referrer.as_str())]);
    // Registering it again is harmless for the owner.
    let msg = ExecuteMsg::RegisterCode { code: "LUCKY-7".to_string() };
    execute(&mut state, &env, &from(&referrer), msg).unwrap();

    let referee = mk("referee");
    let msg = ExecuteMsg::BindReferrer { referrer: None, code: Some("LUCKY-7".to_string()) };
    let res = execute(&mut state, &env, &from(&referee), msg).unwrap();
    assert_eq!(
        attributes(&res),
        vec![("referee", referee.as_str()), ("referrer", referrer.as_str())]
    );
    assert_eq!(summary(&state, &referrer).referees, 1);

    let msg = ExecuteMsg::BindReferrer { referrer: None, code: Some("Nope".to_string()) };
    assert_eq!(
        execute(&mut state, &env, &from(&mk("other")), msg).unwrap_err(),
        ContractError::UnknownReferralCode { code: "Nope".to_string() }
    );
    let msg = ExecuteMsg::BindReferrer { referrer: Some(name("bad")), code: None };
    assert!(matches!(
        execute(&mut state, &env, &from(&mk("other")), msg).unwrap_err(),
        ContractError::Std(_)
    ));
}

#[test]
fn closed_registration_is_the_admins() {
    for open in [None, Some(false)] {
        let (mut state, env, admin, submitter) = setup_with(open);
        assert!(!cfg(&state).open_code_registration);
        for who in [mk("a"), submitter] {
            // Nothing is said to others of the code, not even that it is not valid.
            for code in ["brand", "not ok"] {
                let msg = ExecuteMsg::RegisterCode { code: code.to_string() };
                assert_eq!(
                    execute(&mut state, &env, &from(&who), msg).unwrap_err(),
                    ContractError::Unauthorized { role: "admin".to_string() }
                );
            }
        }
        assert!(state.codes.entries.is_empty());

        let msg = ExecuteMsg::RegisterCode { code: "Brand".to_string() };
        let res = execute(&mut state, &env, &from(&admin), msg).unwrap();
        assert_eq!(attributes(&res), vec![("code", "brand"), ("owner", admin.as_str())]);
        let buyer = mk("buyer");
        buy(&mut state, &env, &buyer, 1, None, Some("brand".to_string())).unwrap();
        assert_eq!(referrer_of(&state, &buyer).referrer, Some(admin));
    }
}

#[test]
fn registration_can_be_opened_and_closed() {
    let (mut state, env, admin, _sub) = setup();
    let mut register = |state: &mut State, code: &str| {
        let msg = ExecuteMsg::RegisterCode { code: code.to_string() };
        execute(state, &env, &from(&mk("a")), msg).is_ok()
    };
    assert!(!register(&mut state, "one"));
    for (open, code) in [(true, "one"), (false, "two")] {
        let mut msg = set_config_none();
        if let ExecuteMsg::SetConfig { open_code_registration, .. } = &mut msg {
            *open_code_registration = Some(open);
        }
        execute(&mut state, &env, &from(&admin), msg).unwrap();
        assert_eq!(register(&mut state, code), open);
    }
    // What was registered meanwhile stays.
    assert_eq!(state.codes.entries.len(), 1);
    assert_eq!(state.codes.entries[0].value, mk("a"));
}

#[test]
fn bad_code_is_not_registered() {
    let (mut state, env, _admin, _sub) = setup_open();
    let msg = ExecuteMsg::RegisterCode { code: "not ok".to_string() };
    assert_eq!(
        execute(&mut state, &env, &from(&mk("a")), msg).unwrap_err(),
        invalid_config("code may only contain [a-z0-9_-]")
    );
}

#[test]
fn amounts_that_do_not_fit_are_refused_without_a_trace() {
    let (mut state, env, admin, _sub) = setup();
    let buyer = mk("buyer");
    let referrer = mk("referrer");
    execute(&mut state, &env, &from(&buyer), bind_to(&referrer)).unwrap();

    state.treasury = u128::MAX;
    let err = buy(&mut state, &env, &buyer, 1, None, None).unwrap_err();
    assert_eq!(err, overflow(OverflowOperation::Add));
    assert_eq!(state.treasury, u128::MAX);
    state.treasury = 0;

    state.rounds[0].round.pool = u128::MAX;
    let err = buy(&mut state, &env, &buyer, 1, None, None).unwrap_err();
    assert_eq!(err, overflow(OverflowOperation::Add));
    assert_eq!(summary(&state, &referrer).pending, 0);
    state.rounds[0].round.pool = 0;

    state.earnings.set(&referrer, u128::MAX);
    let err = buy(&mut state, &env, &buyer, 1, None, None).unwrap_err();
    assert_eq!(err, overflow(OverflowOperation::Add));
    assert_eq!(treasury(&state).balance, 0);
    assert_eq!(current(&state).ticket_count, 0);

    let mut msg = set_config_none();
    if let ExecuteMsg::SetConfig { ticket_price, .. } = &mut msg {
        *ticket_price = Some(Coin { denom: "usaf".to_string(), amount: u128::MAX });
    }
    execute(&mut state, &env, &from(&admin), msg).unwrap();
    let msg = ExecuteMsg::BuyTickets { count: 2, numbers: None, referral_code: None };
    assert_eq!(
        execute(&mut state, &env, &from(&buyer), msg).unwrap_err(),
        overflow(OverflowOperation::Mul)
    );
}

#[test]
fn refused_picks_leave_no_trace() {
    let (mut state, env, _admin, _sub) = setup();
    let before = held(&state);
    buy(&mut state, &env, &mk("buyer"), 2, Some(vec![1, 2, 3, 4, 5, 99]), None).unwrap_err();
    assert_eq!(held(&state), before);
    assert_eq!(current(&state).ticket_count, 0);
    assert!(tickets(&state, None, None, None).tickets.is_empty());
}

#[test]
fn close_names_the_status_and_the_time() {
    let (mut state, env, _admin, _sub) = setup();
    let keeper = mk("keeper");
    assert_eq!(
        execute(&mut state, &env, &from(&keeper), ExecuteMsg::CloseRound {}).unwrap_err(),
        ContractError::RoundNotClosed { round_id: 1, closes_at: 1571801019, now: 1571797419 }
    );
    // The round can be closed at the very second.
    let later = advance(&env, DRAW_INTERVAL);
    let res = execute(&mut state, &later, &from(&keeper), ExecuteMsg::CloseRound {}).unwrap();
    assert_eq!(attributes(&res), vec![("round_id", "1"), ("ticket_count", "0"), ("pool", "0")]);
    assert_eq!(
        execute(&mut state, &later, &from(&keeper), ExecuteMsg::CloseRound {}).unwrap_err(),
        ContractError::UnexpectedStatus {
            round_id: 1,
            status: "drawing".to_string(),
            expected: "open".to_string(),
        }
    );
    assert_eq!(
        buy(&mut state, &later, &keeper, 1, None, None).unwrap_err(),
        ContractError::RoundNotOpen { round_id: 1, status: "drawing".to_string() }
    );
}

#[test]
fn draw_needs_a_closed_round() {
    let (mut state, env, _admin, submitter) = setup();
    let keeper = mk("keeper");
    let draw = |state: &mut State, env: &Env, round_id: u64| {
        execute(state, env, &from(&keeper), ExecuteMsg::Draw { round_id }).unwrap_err()
    };
    assert_eq!(draw(&mut state, &env, 0), ContractError::RoundNotFound { round_id: 0 });
    assert_eq!(draw(&mut state, &env, 2), ContractError::RoundNotFound { round_id: 2 });
    let wrong = |status: &str| ContractError::UnexpectedStatus {
        round_id: 1,
        status: status.to_string(),
        expected: "drawing".to_string(),
    };
    assert_eq!(draw(&mut state, &env, 1), wrong("open"));
    run_draw(&mut state, &env, &submitter, vec![7u8; 32]);
    assert_eq!(draw(&mut state, &env, 1), wrong("settled"));
    assert!(state.is_well_formed());
}

#[test]
fn draw_refuses_without_randomness_or_time() {
    let (mut state, env, _admin, submitter) = setup();
    let later = advance(&env, DRAW_INTERVAL);
    execute(&mut state, &later, &from(&submitter), ExecuteMsg::CloseRound {}).unwrap();
    let draw = |state: &mut State| {
        execute(state, &later, &from(&submitter), ExecuteMsg::Draw { round_id: 1 }).unwrap_err()
    };
    assert_eq!(
        draw(&mut state),
        ContractError::VerificationFailed {
            reason: "randomness for round 1 not yet fulfilled".to_string()
        }
    );
    execute(&mut state, &later, &from(&submitter), submit(1, vec![7u8; 32])).unwrap();
    state.config.draw_interval = u64::MAX;
    assert_eq!(draw(&mut state), invalid_config("draw_interval overflows round close time"));
    assert_eq!(round(&state, 1).status, RoundStatus::Drawing);
    state.rounds[0].randomness = None;
    assert_eq!(draw(&mut state), ContractError::NoCommitment { round_id: 1 });
}

/// Tickets with six, five, four and three matches, twice three, and one with none.
fn sell_winners(state: &mut State, env: &Env) {
    // Winning numbers of [7; 32]: 17, 19, 26, 27, 31, 41.
    let picks: [(&str, [u8; 6]); 6] = [
        ("p6", [17, 19, 26, 27, 31, 41]),
        ("p5", [17, 19, 26, 27, 31, 1]),
        ("p4", [17, 19, 26, 27, 1, 2]),
        ("p3", [17, 19, 26, 1, 2, 3]),
        ("p3", [19, 26, 27, 1, 2, 3]),
        ("p0", [1, 2, 3, 4, 5, 6]),
    ];
    for (who, numbers) in picks {
        buy(state, env, &mk(who), 1, Some(numbers.to_vec()), None).unwrap();
    }
}

#[test]
fn draw_pays_every_tier() {
    let (mut state, env, _admin, submitter) = setup();
    sell_winners(&mut state, &env);
    let before = held(&state);
    assert_eq!(current(&state).pool, 25_500_000);
    let later = advance(&env, DRAW_INTERVAL);
    execute(&mut state, &later, &from(&submitter), ExecuteMsg::CloseRound {}).unwrap();
    execute(&mut state, &later, &from(&submitter), submit(1, vec![7u8; 32])).unwrap();
    let msg = ExecuteMsg::Draw { round_id: 1 };
    let res = execute(&mut state, &later, &from(&submitter), msg).unwrap();
    assert_eq!(
        attributes(&res),
        vec![
            ("round_id", "1"),
            ("winning_numbers", "17,19,26,27,31,41"),
            ("winners_3", "2"),
            ("winners_4", "1"),
            ("winners_5", "1"),
            ("winners_6", "1"),
            ("distributed", "25500000"),
            ("rollover", "0"),
            ("next_round_id", "2"),
        ]
    );
    let r1 = round(&state, 1);
    assert_eq!(r1.prize_tiers.tier_3, 1_020_000);
    assert_eq!(r1.prize_tiers.tier_4, 3_060_000);
    assert_eq!(r1.prize_tiers.tier_5, 5_100_000);
    assert_eq!(r1.prize_tiers.tier_6, 15_300_000);
    assert_eq!(r1.winning_tickets, 5);
    assert_eq!(r1.player_count, 5);
    assert_eq!(held(&state), before);

    let p = prize(&state, 1, &mk("p3"));
    assert_eq!(p.claimable, 2_040_000);
    assert_eq!(p.winning_ticket_ids, vec!["000000000003", "000000000004"]);

    // One claim moves its prize and leaves the others alone.
    let msg = ExecuteMsg::ClaimReward { round_id: 1, ticket_id: ticket_id(3) };
    let res = execute(&mut state, &later, &from(&mk("p3")), msg).unwrap();
    assert_eq!(res.messages[0].amount, coins(1_020_000, "usaf"));
    assert_eq!(
        attributes(&res),
        vec![
            ("round_id", "1"),
            ("ticket_id", "000000000003"),
            ("owner", mk("p3").as_str()),
            ("prize", "1020000"),
        ]
    );
    let p = prize(&state, 1, &mk("p3"));
    assert_eq!((p.claimable, p.claimed), (1_020_000, 1_020_000));
    assert_eq!(held(&state), before - 1_020_000);

    // All prizes can be claimed, and then the pool is empty.
    for (who, seq) in [("p6", 0), ("p5", 1), ("p4", 2), ("p3", 4)] {
        let msg = ExecuteMsg::ClaimReward { round_id: 1, ticket_id: ticket_id(seq) };
        execute(&mut state, &later, &from(&mk(who)), msg).unwrap();
    }
    assert_eq!(round(&state, 1).pool, 0);
    let msg = ExecuteMsg::ClaimReward { round_id: 1, ticket_id: ticket_id(5) };
    assert_eq!(
        execute(&mut state, &later, &from(&mk("p0")), msg).unwrap_err(),
        ContractError::NoPrize { round_id: 1, ticket_id: ticket_id(5) }
    );
}

#[test]
fn leftover_rolls_over_without_a_jackpot() {
    let (mut state, env, _admin, submitter) = setup();
    // Three matches with 4, 9, 26, 28, 29, 39.
    let numbers = Some(vec![4, 9, 26, 1, 2, 3]);
    buy(&mut state, &env, &mk("buyer"), 1, numbers, None).unwrap();
    let before = held(&state);
    run_draw(&mut state, &env, &submitter, vec![0x11u8; 32]);
    assert_eq!(round(&state, 1).pool, 340_000);
    let r2 = round(&state, 2);
    assert_eq!(r2.pool, 4_250_000 - 340_000);
    assert_eq!(r2.rolled_over_from, Some(1));
    assert_eq!(held(&state), before);
}

#[test]
fn the_block_does_not_change_a_draw() {
    let (mut a, env, _admin, submitter) = setup();
    let (mut b, _, _, _) = setup();
    sell_winners(&mut a, &env);
    sell_winners(&mut b, &env);
    let early = advance(&env, DRAW_INTERVAL);
    let late = advance(&env, 10 * DRAW_INTERVAL);
    for (state, when) in [(&mut a, &early), (&mut b, &late)] {
        execute(state, when, &from(&submitter), ExecuteMsg::CloseRound {}).unwrap();
        execute(state, when, &from(&submitter), submit(1, vec![9u8; 32])).unwrap();
        execute(state, when, &from(&submitter), ExecuteMsg::Draw { round_id: 1 }).unwrap();
    }
    assert_eq!(a.rounds[0], b.rounds[0]);
}

#[test]
fn claim_checks_the_round_and_the_pool() {
    let (mut state, env, _admin, submitter) = setup();
    sell_winners(&mut state, &env);
    run_draw(&mut state, &env, &submitter, vec![7u8; 32]);
    let winner = mk("p6");
    let claim = |state: &mut State, round_id: u64| {
        let msg = ExecuteMsg::ClaimReward { round_id, ticket_id: ticket_id(0) };
        execute(state, &env, &from(&winner), msg).unwrap_err()
    };
    assert_eq!(claim(&mut state, 9), ContractError::RoundNotFound { round_id: 9 });
    assert_eq!(
        claim(&mut state, 2),
        ContractError::TicketNotFound { round_id: 2, ticket_id: ticket_id(0) }
    );
    state.rounds[0].round.pool = 10;
    assert_eq!(
        claim(&mut state, 1),
        ContractError::PoolUnderflow {
            round_id: 1,
            pool: "10".to_string(),
            requested: "15300000".to_string(),
        }
    );
}

#[test]
fn pause_does_not_stop_claims() {
    let (mut state, env, admin, submitter) = setup();
    sell_winners(&mut state, &env);
    let res = execute(&mut state, &env, &from(&admin), ExecuteMsg::Pause {}).unwrap();
    assert_eq!(attributes(&res), vec![("paused", "true")]);
    run_draw(&mut state, &env, &submitter, vec![7u8; 32]);
    let msg = ExecuteMsg::ClaimReward { round_id: 1, ticket_id: ticket_id(0) };
    execute(&mut state, &env, &from(&mk("p6")), msg).unwrap();
}

#[test]
fn referral_claims_are_reported() {
    let (mut state, env, _admin, _sub) = setup();
    let buyer = mk("buyer");
    let referrer = mk("referrer");
    execute(&mut state, &env, &from(&buyer), bind_to(&referrer)).unwrap();
    buy(&mut state, &env, &buyer, 3, None, None).unwrap();
    let before = held(&state);
    let res = execute(&mut state, &env, &from(&referrer), ExecuteMsg::ClaimReferral {}).unwrap();
    assert_eq!(attributes(&res), vec![("referrer", referrer.as_str()), ("amount", "1500000")]);
    assert_eq!(held(&state), before - 1_500_000);
    buy(&mut state, &env, &buyer, 1, None, None).unwrap();
    let s = summary(&state, &referrer);
    assert_eq!(s.addr, referrer);
    assert_eq!(s.denom, "usaf");
    assert_eq!((s.pending, s.lifetime_earned, s.lifetime_claimed), (500_000, 2_000_000, 1_500_000));

    let mut totals = state.referrer_totals(&referrer);
    totals.lifetime_claimed = u128::MAX;
    state.totals.set(&referrer, totals);
    assert_eq!(
        execute(&mut state, &env, &from(&referrer), ExecuteMsg::ClaimReferral {}).unwrap_err(),
        overflow(OverflowOperation::Add)
    );
}

#[test]
fn withdrawals_are_reported() {
    let (mut state, env, admin, _sub) = setup();
    buy(&mut state, &env, &mk("buyer"), 1, None, None).unwrap();
    let ops = mk("ops");
    let msg = ExecuteMsg::WithdrawTreasury { to: name(&ops), amount: 50_000 };
    let res = execute(&mut state, &env, &from(&admin), msg).unwrap();
    assert_eq!(
        attributes(&res),
        vec![
            ("by", admin.as_str()),
            ("to", ops.as_str()),
            ("amount", "50000"),
            ("remaining", "700000"),
        ]
    );
    assert_eq!(current(&state).pool, 4_250_000);
    let msg = ExecuteMsg::WithdrawTreasury { to: name("bad"), amount: 1 };
    assert!(matches!(
        execute(&mut state, &env, &from(&admin), msg).unwrap_err(),
        ContractError::Std(_)
    ));
    let msg = ExecuteMsg::WithdrawTreasury { to: name(&ops), amount: 700_001 };
    assert_eq!(
        execute(&mut state, &env, &from(&admin), msg).unwrap_err(),
        ContractError::InsufficientTreasury {
            requested: "700001".to_string(),
            available: "700000".to_string(),
        }
    );
}

#[test]
fn set_config_reports_what_changed() {
    let (mut state, env, admin, submitter) = setup();
    let heir = mk("heir");
    let extra = mk("extra");
    let msg = ExecuteMsg::SetConfig {
        admin: Some(name(&heir)),
        ticket_price: Some(Coin { denom: "usaf".to_string(), amount: 7 }),
        draw_interval: Some(60),
        split: Some(FundSplitBps::new_unchecked(5000, 2000, 3000)),
        rollover_on_no_winner: Some(false),
        randomness_mode: Some(RandomnessMode::Drand),
        verify_mode: Some(VerifyMode::Bls),
        drand_pubkey: Some(vec![1u8; G2_LEN]),
        drand_chain_hash: Some("chain".to_string()),
        drand_genesis_time: Some(100),
        drand_period: Some(30),
        min_claim_usaf: Some(9),
        reveal_timeout: Some(600),
        open_code_registration: Some(true),
        max_dry_rounds: Some(3),
        add_submitters: Some(vec![name(&extra), name(&submitter), name(&extra)]),
        remove_submitters: Some(vec![name(&submitter), name(&heir)]),
    };
    let res = execute(&mut state, &env, &from(&admin), msg).unwrap();
    assert_eq!(res.events[0].ty, "winsaf/set_config");
    assert_eq!(
        attributes(&res),
        vec![
            ("admin", heir.as_str()),
            ("ticket_price", "7"),
            ("draw_interval", "60"),
            ("split_prize_bps", "5000"),
            ("split_referral_bps", "2000"),
            ("split_treasury_bps", "3000"),
            ("rollover_on_no_winner", "false"),
            ("randomness_mode", "drand"),
            ("verify_mode", "bls"),
            ("drand_pubkey", "updated"),
            ("drand_chain_hash", "updated"),
            ("drand_genesis_time", "100"),
            ("drand_period", "30"),
            ("min_claim_usaf", "9"),
            ("reveal_timeout", "600"),
            ("open_code_registration", "true"),
            ("max_dry_rounds", "3"),
            ("add_submitter", extra.as_str()),
            ("remove_submitter", submitter.as_str()),
            ("remove_submitter", heir.as_str()),
        ]
    );
    let c = cfg(&state);
    assert_eq!(c.admin, heir);
    assert_eq!(c.ticket_price.amount, 7);
    assert_eq!(c.split, FundSplitBps::new_unchecked(5000, 2000, 3000));
    assert_eq!(c.drand_chain_hash, "chain");
    assert_eq!(c.min_claim_usaf, 9);
    assert_eq!((c.drand_genesis_time, c.drand_period), (100, 30));
    assert_eq!((c.reveal_timeout, c.open_code_registration, c.max_dry_rounds), (600, true, 3));
    assert_eq!(c.authorized_submitters, vec![extra]);
    // The former admin has nothing to say any more.
    let err = execute(&mut state, &env, &from(&admin), set_config_none()).unwrap_err();
    assert_eq!(err, ContractError::Unauthorized { role: "admin".to_string() });
}

#[test]
fn set_config_refuses_without_a_trace() {
    let (mut state, env, admin, _sub) = setup();
    let before = cfg(&state);
    let mut msg = set_config_none();
    if let ExecuteMsg::SetConfig { draw_interval, randomness_mode, .. } = &mut msg {
        *draw_interval = Some(60);
        *randomness_mode = Some(RandomnessMode::Drand);
    }
    assert_eq!(
        execute(&mut state, &env, &from(&admin), msg).unwrap_err(),
        invalid_config("drand_chain_hash is required in drand mode")
    );
    assert_eq!(cfg(&state), before);

    let mut msg = set_config_none();
    if let ExecuteMsg::SetConfig { remove_submitters, add_submitters, .. } = &mut msg {
        *add_submitters = Some(vec![name(&mk("x"))]);
        *remove_submitters = Some(vec![name("bad")]);
    }
    assert!(matches!(
        execute(&mut state, &env, &from(&admin), msg).unwrap_err(),
        ContractError::Std(_)
    ));
    assert_eq!(cfg(&state), before);

    let mut msg = set_config_none();
    if let ExecuteMsg::SetConfig { draw_interval, .. } = &mut msg {
        *draw_interval = Some(0);
    }
    assert_eq!(
        execute(&mut state, &env, &from(&admin), msg).unwrap_err(),
        invalid_config("draw_interval must be non-zero")
    );
}

fn drand_contract(verify_mode: VerifyMode) -> (State, Env, String) {
    let env = block();
    let admin = mk("admin");
    let mut state = new_contract(
        &admin,
        InstantiateMsg {
            draw_interval: Some(DRAW_INTERVAL),
            randomness_mode: Some(RandomnessMode::Drand),
            verify_mode: Some(verify_mode),
            drand_pubkey: Some(vec![1u8; G2_LEN]),
            drand_chain_hash: Some("chain".to_string()),
            ..empty_msg()
        },
    )
    .unwrap();
    let later = advance(&env, DRAW_INTERVAL);
    execute(&mut state, &later, &from(&admin), ExecuteMsg::CloseRound {}).unwrap();
    (state, later, admin)
}

fn signed(randomness: Vec<u8>, signature: Option<Vec<u8>>, pairing: PairingAnswer) -> ExecuteMsg {
    ExecuteMsg::SubmitRandomness { round_id: 1, randomness, signature, pairing }
}

#[test]
fn drand_randomness_comes_with_its_signature() {
    let (mut state, env, admin) = drand_contract(VerifyMode::Dev);
    let signature = vec![3u8; G1_LEN];
    let randomness = sha256(&signature).to_vec();

    let msg = signed(randomness.clone(), None, PairingAnswer::DoesNotHold);
    assert_eq!(
        execute(&mut state, &env, &from(&admin), msg).unwrap_err(),
        ContractError::VerificationFailed { reason: "drand mode requires a signature".to_string() }
    );
    let msg = signed(vec![0u8; 32], Some(signature.clone()), PairingAnswer::DoesNotHold);
    assert!(matches!(
        execute(&mut state, &env, &from(&admin), msg).unwrap_err(),
        ContractError::VerificationFailed { .. }
    ));
    assert!(
        randomness_query(&state, &from(&admin), 1, &randomness, &Some(signature.clone())).is_none()
    );
    let msg = signed(randomness.clone(), Some(signature.clone()), PairingAnswer::DoesNotHold);
    let res = execute(&mut state, &env, &from(&admin), msg).unwrap();
    assert_eq!(
        attributes(&res),
        vec![("round_id", "1"), ("mode", "drand"), ("randomness", hex_text(&randomness).as_str())]
    );
    let request = round(&state, 1).randomness.unwrap();
    assert_eq!(request.signature, Some(signature));
    assert_eq!(request.randomness, Some(randomness));
    assert_eq!(request.beacon_round, 1);
}

#[test]
fn host_is_asked_about_the_beacon_round() {
    let (mut state, env, admin) = drand_contract(VerifyMode::Bls);
    let signature = vec![3u8; G1_LEN];
    let randomness = sha256(&signature).to_vec();
    let ask = |state: &State, who: &str| {
        randomness_query(state, &from(who), 1, &randomness, &Some(signature.clone()))
    };
    assert!(ask(&state, &mk("stranger")).is_none());
    let query = ask(&state, &admin).unwrap();
    assert_eq!(query.message, drand_message(1).to_vec());
    assert_eq!(query.pubkey, vec![1u8; G2_LEN]);
    let msg = signed(randomness.clone(), Some(signature.clone()), PairingAnswer::DoesNotHold);
    assert!(matches!(
        execute(&mut state, &env, &from(&admin), msg).unwrap_err(),
        ContractError::VerificationFailed { .. }
    ));
    let msg = signed(randomness.clone(), Some(signature.clone()), PairingAnswer::Holds);
    execute(&mut state, &env, &from(&admin), msg).unwrap();
    assert!(ask(&state, &admin).is_none());
}

#[test]
fn commit_and_reveal_belong_to_their_mode() {
    let (mut state, env, _admin, submitter) = setup();
    let commit = |commitment: Vec<u8>| ExecuteMsg::CommitRandomness { round_id: 1, commitment };
    let reveal = || ExecuteMsg::RevealRandomness { round_id: 1, value: vec![1, 2, 3] };
    let wrong = ContractError::WrongMode { mode: "mock".to_string() };
    assert_eq!(
        execute(&mut state, &env, &from(&submitter), commit(vec![0u8; 32])).unwrap_err(),
        wrong
    );
    assert_eq!(execute(&mut state, &env, &from(&submitter), reveal()).unwrap_err(), wrong);

    state.config.randomness_mode = RandomnessMode::CommitReveal;
    assert_eq!(
        execute(&mut state, &env, &from(&mk("x")), commit(vec![0u8; 32])).unwrap_err(),
        ContractError::UnauthorizedSubmitter
    );
    assert_eq!(
        execute(&mut state, &env, &from(&submitter), commit(vec![0u8; 31])).unwrap_err(),
        ContractError::VerificationFailed {
            reason: "commitment hash must be 32 bytes (sha256)".to_string()
        }
    );
    assert_eq!(
        execute(&mut state, &env, &from(&submitter), commit(vec![0u8; 32])).unwrap_err(),
        ContractError::RoundNotFound { round_id: 1 }
    );
    let later = advance(&env, DRAW_INTERVAL);
    execute(&mut state, &later, &from(&submitter), ExecuteMsg::CloseRound {}).unwrap();
    assert_eq!(
        execute(&mut state, &later, &from(&submitter), reveal()).unwrap_err(),
        ContractError::NoCommitment { round_id: 1 }
    );
    let digest = sha256(&[1, 2, 3]).to_vec();
    let res = execute(&mut state, &later, &from(&submitter), commit(digest.clone())).unwrap();
    assert_eq!(
        attributes(&res),
        vec![
            ("round_id", "1"),
            ("committer", submitter.as_str()),
            ("commitment", hex_text(&digest).as_str()),
        ]
    );
    let request = round(&state, 1).randomness.unwrap();
    assert!(matches!(request.status, RandomnessStatus::Committed));
    let res = execute(&mut state, &later, &from(&submitter), reveal()).unwrap();
    assert_eq!(
        attributes(&res),
        vec![("round_id", "1"), ("randomness", hex_text(&digest).as_str())]
    );
    assert_eq!(
        execute(&mut state, &later, &from(&submitter), reveal()).unwrap_err(),
        ContractError::AlreadyFulfilled { round_id: 1 }
    );
}

// --- queries in detail ------------------------------------------------------

#[test]
fn tickets_come_in_pages() {
    let (mut state, env, _admin, _sub) = setup();
    let a = mk("a");
    let b = mk("b");
    buy(&mut state, &env, &a, 20, None, None).unwrap();
    buy(&mut state, &env, &b, 100, None, None).unwrap();

    let ids = |page: &TicketsResponse| -> Vec<String> {
        page.tickets.iter().map(|t| t.ticket_id.clone()).collect()
    };
    let first = tickets(&state, None, None, None);
    assert_eq!(first.tickets.len(), 30);
    assert_eq!(first.tickets[29].ticket_id, ticket_id(29));
    let second = tickets(&state, None, Some(ticket_id(29)), Some(1000));
    assert_eq!(second.tickets.len(), 90);
    assert_eq!(second.tickets[0].ticket_id, ticket_id(30));
    assert_eq!(tickets(&state, None, None, Some(1000)).tickets.len(), 100);
    assert!(tickets(&state, None, None, Some(0)).tickets.is_empty());

    let of_b = tickets(&state, Some(&b), None, Some(2));
    assert_eq!(ids(&of_b), vec![ticket_id(20), ticket_id(21)]);
    assert!(of_b.tickets.iter().all(|t| t.ticket.owner == b));
    let next = tickets(&state, Some(&b), Some(ticket_id(21)), Some(2));
    assert_eq!(ids(&next), vec![ticket_id(22), ticket_id(23)]);
    // Any text can be started from.
    assert_eq!(tickets(&state, None, Some("00000000011".to_string()), None).tickets.len(), 10);
    assert!(tickets(&state, None, Some("1".to_string()), None).tickets.is_empty());

    let msg = QueryMsg::Tickets { round_id: 7, owner: None, start_after: None, limit: None };
    assert_eq!(
        query(&state, msg).unwrap(),
        QueryReply::Tickets(TicketsResponse { tickets: vec![] })
    );
    let msg = QueryMsg::Tickets {
        round_id: 1,
        owner: Some(name("bad")),
        start_after: None,
        limit: None,
    };
    assert!(matches!(query(&state, msg).unwrap_err(), ContractError::Std(_)));
}

#[test]
fn queries_refuse_what_is_not_there() {
    let (mut state, env, _admin, submitter) = setup();
    assert_eq!(
        query(&state, QueryMsg::Round { round_id: 0 }).unwrap_err(),
        ContractError::RoundNotFound { round_id: 0 }
    );
    let of = |round_id: u64, owner: AddrText| QueryMsg::Prize { round_id, owner };
    assert_eq!(
        query(&state, of(2, name(&mk("p6")))).unwrap_err(),
        ContractError::RoundNotFound { round_id: 2 }
    );
    assert!(matches!(query(&state, of(1, name("bad"))).unwrap_err(), ContractError::Std(_)));
    let msg = QueryMsg::Referrer { referee: name("bad") };
    assert!(matches!(query(&state, msg).unwrap_err(), ContractError::Std(_)));
    let msg = QueryMsg::ReferralSummary { addr: name("bad") };
    assert!(matches!(query(&state, msg).unwrap_err(), ContractError::Std(_)));

    sell_winners(&mut state, &env);
    run_draw(&mut state, &env, &submitter, vec![7u8; 32]);
    state.rounds[0].tickets[3].prize = u128::MAX;
    assert_eq!(
        query(&state, of(1, name(&mk("p3")))).unwrap_err(),
        overflow(OverflowOperation::Add)
    );
}

#[test]
fn migration_reports_and_repeats() {
    let (mut state, _env, _admin, _sub) = setup();
    state.version.version = "0.0.9".to_string();
    let res = migrate(&mut state, MigrateMsg {}).unwrap();
    assert_eq!(attributes(&res), vec![("from_version", "0.0.9"), ("to_version", "0.1.0")]);
    let res = migrate(&mut state, MigrateMsg {}).unwrap();
    assert_eq!(attributes(&res), vec![("from_version", "0.1.0"), ("to_version", "0.1.0")]);
    state.version.contract = "other".to_string();
    assert_eq!(
        migrate(&mut state, MigrateMsg {}).unwrap_err(),
        ContractError::InvalidMigration {
            expected: "crates.io:winsaf".to_string(),
            found: "other".to_string(),
        }
    );
}

#[test]
fn malformed_states_are_recognized() {
    let (mut state, env, _admin, submitter) = setup();
    run_draw(&mut state, &env, &submitter, vec![7u8; 32]);
    assert!(state.is_well_formed());
    state.rounds[0].round.status = RoundStatus::Drawing;
    assert!(!state.is_well_formed());
    state.rounds[0].round.status = RoundStatus::Settled;
    state.rounds[1].round.id = 3;
    assert!(!state.is_well_formed());
    state.rounds[1].round.id = 2;
    state.config.number_max = 5;
    assert!(!state.is_well_formed());
    state.config.number_max = 45;
    state.rounds.clear();
    assert!(!state.is_well_formed());
}

// --- denominations ----------------------------------------------------------

#[test]
fn payments_are_in_the_configured_denom() {
    let env = block();
    let admin = mk("admin");
    let buyer = mk("buyer");
    let msg = InstantiateMsg { denom: Some("uatom".to_string()), ..empty_msg() };
    let mut state = new_contract(&admin, msg).unwrap();
    assert_eq!(cfg(&state).ticket_price, Coin { denom: "uatom".to_string(), amount: 5_000_000 });

    let order = || ExecuteMsg::BuyTickets { count: 1, numbers: None, referral_code: None };
    let err = execute(&mut state, &env, &paying(&buyer, coins(5_000_000, "usaf")), order());
    assert_eq!(
        err.unwrap_err(),
        ContractError::Shared(SharedError::UnexpectedFunds { expected: "uatom".to_string() })
    );
    execute(&mut state, &env, &paying(&buyer, coins(5_000_000, "uatom")), order()).unwrap();
    let r = round(&state, 1);
    assert_eq!((r.pool, r.ticket_count), (4_250_000, 1));

    // What goes out is of the same denomination, which no setting changes.
    let msg = ExecuteMsg::WithdrawTreasury { to: name(&admin), amount: 750_000 };
    let res = execute(&mut state, &env, &from(&admin), msg).unwrap();
    assert_eq!(res.messages[0].amount, coins(750_000, "uatom"));
    assert_eq!(treasury(&state).denom, "uatom");
    let mut msg = set_config_none();
    if let ExecuteMsg::SetConfig { ticket_price, .. } = &mut msg {
        *ticket_price = Some(Coin { denom: "usaf".to_string(), amount: 7 });
    }
    assert_eq!(
        execute(&mut state, &env, &from(&admin), msg).unwrap_err(),
        invalid_config("ticket_price denom must be 'uatom'")
    );
}

#[test]
fn leftover_is_retained_without_rollover() {
    let (mut state, env, _admin, submitter) = setup();
    state.config.rollover_on_no_winner = false;
    // Three matches with 4, 9, 26, 28, 29, 39.
    let buyer = mk("buyer");
    buy(&mut state, &env, &buyer, 1, Some(vec![4, 9, 26, 1, 2, 3]), None).unwrap();
    let before = held(&state);
    run_draw(&mut state, &env, &submitter, vec![0x11u8; 32]);
    assert_eq!(round(&state, 1).pool, 4_250_000);
    assert_eq!(round(&state, 2).pool, 0);
    assert_eq!(round(&state, 2).rolled_over_from, None);
    assert_eq!(held(&state), before);

    let msg = ExecuteMsg::ClaimReward { round_id: 1, ticket_id: ticket_id(0) };
    execute(&mut state, &env, &from(&buyer), msg).unwrap();
    assert_eq!(round(&state, 1).pool, 4_250_000 - 340_000);
    assert_eq!(held(&state), before - 340_000);
}

#[test]
fn leftover_of_a_jackpot_round_is_retained() {
    let (mut state, env, _admin, submitter) = setup();
    let numbers = Some(vec![17, 19, 26, 27, 31, 41]);
    buy(&mut state, &env, &mk("buyer"), 1, numbers, None).unwrap();
    let before = held(&state);
    run_draw(&mut state, &env, &submitter, vec![7u8; 32]);
    assert_eq!(round(&state, 1).prize_tiers.tier_6, 2_550_000);
    assert_eq!(round(&state, 1).pool, 4_250_000);
    assert_eq!(round(&state, 2).pool, 0);
    assert_eq!(held(&state), before);
}

// --- settings with defaults -------------------------------------------------

#[test]
fn limits_have_defaults() {
    let state = new_contract(&mk("admin"), empty_msg()).unwrap();
    let c = cfg(&state);
    assert_eq!(c.draw_interval, 86_400);
    assert_eq!(c.reveal_timeout, 3600);
    assert!(!c.open_code_registration);
    assert_eq!(c.max_dry_rounds, 5);
    assert_eq!(c.max_dry_rounds, default_max_dry_rounds());
    assert_eq!((c.drand_genesis_time, c.drand_period), (0, 0));

    // Without drand there is no beacon clock, with it quicknet's unless given.
    let msg = InstantiateMsg {
        drand_genesis_time: Some(5),
        drand_period: Some(6),
        max_dry_rounds: Some(0),
        reveal_timeout: Some(1),
        open_code_registration: Some(true),
        ..empty_msg()
    };
    let c = cfg(&new_contract(&mk("admin"), msg).unwrap());
    assert_eq!((c.drand_genesis_time, c.drand_period), (0, 0));
    assert_eq!((c.reveal_timeout, c.open_code_registration, c.max_dry_rounds), (1, true, 0));
    let (state, _, _) = drand_contract(VerifyMode::Bls);
    let c = cfg(&state);
    assert_eq!((c.drand_genesis_time, c.drand_period), (1_692_803_367, 3));
}

#[test]
fn beacon_clock_follows_the_mode() {
    let (mut state, env, admin) = drand_contract(VerifyMode::Dev);
    let mut msg = set_config_none();
    if let ExecuteMsg::SetConfig { drand_period, .. } = &mut msg {
        *drand_period = Some(30);
    }
    execute(&mut state, &env, &from(&admin), msg).unwrap();
    assert_eq!(cfg(&state).drand_genesis_time, 1_692_803_367);
    assert_eq!(cfg(&state).drand_period, 30);
    let mut msg = set_config_none();
    if let ExecuteMsg::SetConfig { randomness_mode, .. } = &mut msg {
        *randomness_mode = Some(RandomnessMode::Mock);
    }
    execute(&mut state, &env, &from(&admin), msg).unwrap();
    assert_eq!((cfg(&state).drand_genesis_time, cfg(&state).drand_period), (0, 0));
}

/// The beacon round that a closed round waits for.
fn beacon_round(genesis: u64, period: u64) -> u64 {
    let (mut state, env, admin, _sub) = setup();
    let mut msg = set_config_none();
    if let ExecuteMsg::SetConfig {
        randomness_mode,
        drand_chain_hash,
        drand_genesis_time,
        drand_period,
        ..
    } = &mut msg
    {
        *randomness_mode = Some(RandomnessMode::Drand);
        *drand_chain_hash = Some("chain".to_string());
        *drand_genesis_time = Some(genesis);
        *drand_period = Some(period);
    }
    execute(&mut state, &env, &from(&admin), msg).unwrap();
    // Closing late does not change which round counts.
    let later = advance(&env, 5 * DRAW_INTERVAL);
    execute(&mut state, &later, &from(&admin), ExecuteMsg::CloseRound {}).unwrap();
    assert_eq!(round(&state, 1).closes_at, 1_571_801_019);
    round(&state, 1).randomness.unwrap().beacon_round
}

#[test]
fn beacon_round_is_the_first_after_closing() {
    assert_eq!(beacon_round(1_571_797_000, 30), 135);
    // A round that is published at the closing time itself comes too early.
    assert_eq!(beacon_round(1_571_801_019, 30), 2);
    assert_eq!(beacon_round(1_571_801_018, 1), 3);
    assert_eq!(beacon_round(1_571_801_020, 30), 1);
    assert_eq!(beacon_round(1, 1), 1_571_801_020);
}

#[test]
fn other_modes_count_beacon_rounds_as_rounds() {
    let (mut state, env, _admin, submitter) = setup();
    run_draw(&mut state, &env, &submitter, vec![7u8; 32]);
    let later = advance(&env, 3 * DRAW_INTERVAL);
    execute(&mut state, &later, &from(&submitter), ExecuteMsg::CloseRound {}).unwrap();
    assert_eq!(round(&state, 2).randomness.unwrap().beacon_round, 2);
}

// --- dry rounds -------------------------------------------------------------

/// Sells a ticket to each of these players, closes the current round and draws it.
fn play(state: &mut State, submitter: &str, players: &[(&str, [u8; 6])], randomness: u8) {
    let id = current(state).id;
    let env = advance(&block(), id * DRAW_INTERVAL + id);
    for (who, numbers) in players {
        buy(state, &env, &mk(who), 1, Some(numbers.to_vec()), None).unwrap();
    }
    let later = advance(&env, DRAW_INTERVAL);
    execute(state, &later, &from(submitter), ExecuteMsg::CloseRound {}).unwrap();
    execute(state, &later, &from(submitter), submit(id, vec![randomness; 32])).unwrap();
    execute(state, &later, &from(submitter), ExecuteMsg::Draw { round_id: id }).unwrap();
}

const DUD: [u8; 6] = [1, 2, 3, 4, 5, 6];
// With the randomness of sevens 17, 19, 26, 27, 31 and 41 win.
const FOUR: [u8; 6] = [1, 2, 17, 19, 26, 27];
const SIX: [u8; 6] = [17, 19, 26, 27, 31, 41];

#[test]
fn jackpot_share_is_forced_down() {
    let (mut state, _env, _admin, submitter) = setup();
    state.config.max_dry_rounds = 2;
    play(&mut state, &submitter, &[("a", DUD), ("b", DUD)], 7);
    play(&mut state, &submitter, &[("a", DUD), ("b", DUD)], 7);
    assert_eq!(current(&state).pool, 17_000_000);
    assert_eq!(current(&state).dry_streak, 2);
    let before = held(&state);
    play(&mut state, &submitter, &[("a", DUD), ("b", FOUR)], 7);

    let r3 = round(&state, 3);
    assert_eq!(r3.prize_tiers.tier_4, 3_060_000 + 15_300_000);
    assert_eq!(r3.prize_tiers.tier_3, 0);
    assert_eq!(r3.pool, 18_360_000);
    assert_eq!(round(&state, 4).pool, 25_500_000 - 18_360_000);
    assert_eq!(held(&state), before + 10_000_000);
    // Every settled round shows the streak as it was then.
    let shown = |id: u64| round(&state, id).dry_streak;
    assert_eq!((shown(1), shown(2), shown(3), shown(4)), (1, 2, 0, 0));

    let msg = ExecuteMsg::ClaimReward { round_id: 3, ticket_id: ticket_id(1) };
    execute(&mut state, &block(), &from(&mk("b")), msg).unwrap();
    assert_eq!(prize(&state, 3, &mk("b")).claimed, 18_360_000);
}

#[test]
fn jackpot_share_waits_for_a_lower_winner() {
    let (mut state, _env, _admin, submitter) = setup();
    state.config.max_dry_rounds = 1;
    play(&mut state, &submitter, &[("a", DUD), ("b", DUD)], 7);
    play(&mut state, &submitter, &[("a", DUD), ("b", DUD)], 7);
    assert_eq!(round(&state, 2).dry_streak, 2);
    play(&mut state, &submitter, &[("a", SIX), ("b", FOUR)], 7);
    assert_eq!(round(&state, 3).prize_tiers.tier_6, 15_300_000);
    assert_eq!(round(&state, 3).prize_tiers.tier_4, 3_060_000);
    assert_eq!(current(&state).dry_streak, 0);
}

#[test]
fn jackpot_share_is_not_forced_down_without_a_limit() {
    let (mut state, _env, _admin, submitter) = setup();
    state.config.max_dry_rounds = 0;
    play(&mut state, &submitter, &[("a", DUD), ("b", DUD)], 7);
    play(&mut state, &submitter, &[("a", DUD), ("b", DUD)], 7);
    play(&mut state, &submitter, &[("a", DUD), ("b", FOUR)], 7);
    assert_eq!(round(&state, 3).prize_tiers.tier_4, 3_060_000);
    assert_eq!(current(&state).dry_streak, 3);
}

#[test]
fn rounds_with_few_players_leave_the_streak() {
    let (mut state, _env, _admin, submitter) = setup();
    state.config.max_dry_rounds = 1;
    play(&mut state, &submitter, &[], 7);
    play(&mut state, &submitter, &[("a", DUD), ("a", DUD)], 7);
    assert_eq!(current(&state).dry_streak, 0);
    play(&mut state, &submitter, &[("a", DUD), ("b", DUD)], 7);
    assert_eq!(current(&state).dry_streak, 1);
    // A single player does not harvest the jackpot share, nor end the streak.
    play(&mut state, &submitter, &[("a", FOUR)], 7);
    assert_eq!(round(&state, 4).prize_tiers.tier_4, 21_250_000 * 12 / 100);
    assert_eq!(current(&state).dry_streak, 1);
    play(&mut state, &submitter, &[("a", SIX)], 7);
    assert_eq!(current(&state).dry_streak, 1);
}

// --- bonus tickets ----------------------------------------------------------

fn grant(owner: &str, count: u32, numbers: Option<Vec<u8>>) -> ExecuteMsg {
    ExecuteMsg::GrantBonusTicket { owner: name(owner), count, numbers }
}

#[test]
fn bonus_tickets_are_fully_funded() {
    let (mut state, env, _admin, submitter) = setup();
    let owner = mk("owner");
    execute(&mut state, &env, &from(&owner), bind_to(&mk("referrer"))).unwrap();
    let funds = || coins(2 * TICKET_PRICE, DENOM);
    let msg = grant(&owner, 2, Some(SIX.to_vec()));
    let res = execute(&mut state, &env, &paying(&submitter, funds()), msg).unwrap();
    assert_eq!(res.events[0].ty, "winsaf/grant_bonus");
    assert_eq!(
        attributes(&res),
        vec![
            ("round_id", "1"),
            ("owner", owner.as_str()),
            ("sponsor", submitter.as_str()),
            ("count", "2"),
            ("paid", "10000000"),
            ("pool", "10000000"),
            ("first_ticket_id", "000000000000"),
            ("last_ticket_id", "000000000001"),
            ("new_player", "true"),
        ]
    );
    let r = current(&state);
    assert_eq!((r.pool, r.ticket_count, r.player_count), (10_000_000, 2, 1));
    assert_eq!(treasury(&state).balance, 0);
    assert_eq!(summary(&state, &mk("referrer")).pending, 0);
    let listed = tickets(&state, Some(&owner), None, None).tickets;
    assert_eq!(listed.len(), 2);
    assert!(listed.iter().all(|t| t.ticket.free));
    assert_eq!(listed[0].ticket.numbers, SIX.to_vec());
    assert_eq!(listed[1].ticket.numbers, quick_pick(&env, &owner, 1, 1, 6, 45));

    // A bought ticket is not free, and a bonus ticket wins like it.
    buy(&mut state, &env, &mk("buyer"), 1, None, None).unwrap();
    assert!(!state.rounds[0].tickets[2].free);
    run_draw(&mut state, &env, &submitter, vec![7u8; 32]);
    let msg = ExecuteMsg::ClaimReward { round_id: 1, ticket_id: ticket_id(0) };
    let res = execute(&mut state, &env, &from(&owner), msg).unwrap();
    assert_eq!(res.messages[0].amount, coins(14_250_000 * 60 / 100, DENOM));
}

#[test]
fn bonus_tickets_are_refused_in_order() {
    let (mut state, env, admin, submitter) = setup();
    let owner = mk("owner");
    let funds = || coins(TICKET_PRICE, DENOM);
    let refusal = |state: &mut State, sender: &str, funds: Vec<Coin>, msg: ExecuteMsg| {
        let before = held(state);
        let err = execute(state, &env, &paying(sender, funds), msg).unwrap_err();
        assert_eq!(held(state), before);
        assert!(state.rounds[0].tickets.is_empty());
        err
    };
    assert_eq!(
        refusal(&mut state, &mk("x"), funds(), grant(&owner, 1, None)),
        ContractError::UnauthorizedSubmitter
    );
    assert!(matches!(
        refusal(&mut state, &submitter, funds(), grant("bad", 0, None)),
        ContractError::Std(_)
    ));
    assert_eq!(
        refusal(&mut state, &submitter, funds(), grant(&owner, 0, None)),
        ContractError::InvalidTicketCount { count: 0, max: 100 }
    );
    assert!(matches!(
        refusal(&mut state, &submitter, funds(), grant(&owner, 2, None)),
        ContractError::Shared(SharedError::IncorrectPayment { .. })
    ));
    assert!(matches!(
        refusal(&mut state, &submitter, vec![], grant(&owner, 1, None)),
        ContractError::Shared(SharedError::NoFunds { .. })
    ));
    assert!(matches!(
        refusal(&mut state, &admin, funds(), grant(&owner, 1, Some(vec![1, 1, 2, 3, 4, 5]))),
        ContractError::InvalidNumbers { .. }
    ));
    state.rounds[0].round.pool = u128::MAX;
    assert_eq!(
        refusal(&mut state, &admin, funds(), grant(&owner, 1, None)),
        overflow(OverflowOperation::Add)
    );
    state.rounds[0].round.pool = 0;
    state.config.paused = true;
    assert_eq!(
        refusal(&mut state, &admin, funds(), grant(&owner, 1, None)),
        ContractError::Paused
    );
    state.config.paused = false;
    let later = advance(&env, DRAW_INTERVAL);
    execute(&mut state, &later, &from(&admin), ExecuteMsg::CloseRound {}).unwrap();
    assert_eq!(
        refusal(&mut state, &admin, funds(), grant(&owner, 1, None)),
        ContractError::RoundNotOpen { round_id: 1, status: "drawing".to_string() }
    );
}

#[test]
fn tickets_feed_the_entropy_of_their_round() {
    let (mut state, env, _admin, submitter) = setup();
    assert_eq!(state.rounds[0].round.ticket_entropy, [0u8; 32]);
    let buyer = mk("buyer");
    let owner = mk("owner");
    buy(&mut state, &env, &buyer, 1, Some(DUD.to_vec()), None).unwrap();
    let funds = coins(TICKET_PRICE, DENOM);
    let msg = grant(&owner, 1, Some(SIX.to_vec()));
    execute(&mut state, &env, &paying(&submitter, funds), msg).unwrap();

    let mut entropy = [0u8; 32];
    for (who, id, picks) in [(&buyer, "000000000000", DUD), (&owner, "000000000001", SIX)] {
        let mut message = entropy.to_vec();
        message.extend_from_slice(who.as_bytes());
        message.extend_from_slice(id.as_bytes());
        message.extend_from_slice(&picks);
        assert_eq!(write_entropy_message(&entropy, who, id, &picks), message);
        entropy = sha256(&message);
    }
    assert_eq!(state.rounds[0].round.ticket_entropy, entropy);
    run_draw(&mut state, &env, &submitter, vec![7u8; 32]);
    assert_eq!(state.rounds[0].round.ticket_entropy, entropy);
    assert_eq!(state.rounds[1].round.ticket_entropy, [0u8; 32]);
}

#[test]
fn code_binds_without_a_referral_share() {
    let (mut state, env, _admin, _sub) = setup_open();
    state.config.split = FundSplitBps::new_unchecked(9000, 0, 1000);
    let owner = mk("owner");
    let buyer = mk("buyer");
    let msg = ExecuteMsg::RegisterCode { code: "gift".to_string() };
    execute(&mut state, &env, &from(&owner), msg).unwrap();
    buy(&mut state, &env, &buyer, 1, None, Some("GIFT".to_string())).unwrap();
    assert_eq!(referrer_of(&state, &buyer).referrer, Some(owner.clone()));
    let s = summary(&state, &owner);
    assert_eq!((s.pending, s.referees), (0, 1));
    assert_eq!(current(&state).pool, 4_500_000);
}

// --- rounds that are given up -----------------------------------------------

/// A closed round with three tickets, two of them of one owner.
fn stuck() -> (State, Env, String, String) {
    let (mut state, env, admin, submitter) = setup();
    buy(&mut state, &env, &mk("a"), 2, None, None).unwrap();
    buy(&mut state, &env, &mk("b"), 1, None, None).unwrap();
    state.rounds[0].round.pool += 2;
    let later = advance(&env, DRAW_INTERVAL);
    execute(&mut state, &later, &from(&admin), ExecuteMsg::CloseRound {}).unwrap();
    (state, later, admin, submitter)
}

fn cancel() -> ExecuteMsg {
    ExecuteMsg::CancelRound { round_id: 1 }
}

#[test]
fn stuck_round_is_refunded() {
    let (mut state, env, admin, submitter) = stuck();
    let before = held(&state);
    let res = execute(&mut state, &env, &from(&admin), cancel()).unwrap();
    assert_eq!(res.events[0].ty, "winsaf/cancel");
    assert_eq!(
        attributes(&res),
        vec![
            ("round_id", "1"),
            ("tickets", "3"),
            ("refund_per_ticket", "4250000"),
            ("rollover", "2"),
            ("next_round_id", "2"),
        ]
    );
    assert!(state.is_well_formed());
    assert_eq!(held(&state), before);
    let r1 = round(&state, 1);
    assert_eq!((r1.status, r1.pool), (RoundStatus::Cancelled, 12_750_000));
    let r2 = current(&state);
    assert_eq!((r2.id, r2.status, r2.pool), (2, RoundStatus::Open, 2));
    assert_eq!(r2.rolled_over_from, Some(1));
    assert_eq!(prize(&state, 1, &mk("a")).claimable, 8_500_000);

    let claim = |id: u64| ExecuteMsg::ClaimReward { round_id: 1, ticket_id: ticket_id(id) };
    for (who, id) in [("a", 0), ("a", 1), ("b", 2)] {
        let res = execute(&mut state, &env, &from(&mk(who)), claim(id)).unwrap();
        assert_eq!(res.messages[0].amount, coins(4_250_000, DENOM));
    }
    assert_eq!(round(&state, 1).pool, 0);
    assert_eq!(
        execute(&mut state, &env, &from(&mk("a")), claim(0)).unwrap_err(),
        ContractError::AlreadyClaimed { round_id: 1, ticket_id: ticket_id(0) }
    );

    // The round is over: it takes no randomness and is not drawn or given up again.
    let over = ContractError::UnexpectedStatus {
        round_id: 1,
        status: "cancelled".to_string(),
        expected: "drawing".to_string(),
    };
    let late = submit(1, vec![7u8; 32]);
    assert_eq!(execute(&mut state, &env, &from(&submitter), late).unwrap_err(), over);
    let draw = ExecuteMsg::Draw { round_id: 1 };
    assert_eq!(execute(&mut state, &env, &from(&submitter), draw).unwrap_err(), over);
    assert_eq!(execute(&mut state, &env, &from(&admin), cancel()).unwrap_err(), over);
    assert_eq!(state.dry_streak, 0);
    play(&mut state, &submitter, &[("a", DUD), ("b", DUD)], 7);
    assert_eq!(round(&state, 2).status, RoundStatus::Settled);
}

#[test]
fn refund_rest_stays_without_rollover() {
    let (mut state, env, admin, _sub) = stuck();
    state.config.rollover_on_no_winner = false;
    let before = held(&state);
    execute(&mut state, &env, &from(&admin), cancel()).unwrap();
    assert_eq!(round(&state, 1).pool, 12_750_002);
    assert_eq!(current(&state).pool, 0);
    assert_eq!(current(&state).rolled_over_from, None);
    assert_eq!(held(&state), before);
}

#[test]
fn empty_round_can_be_given_up() {
    let (mut state, env, admin, _sub) = setup();
    state.rounds[0].round.pool = 77;
    let later = advance(&env, DRAW_INTERVAL);
    execute(&mut state, &later, &from(&admin), ExecuteMsg::CloseRound {}).unwrap();
    execute(&mut state, &later, &from(&admin), cancel()).unwrap();
    assert_eq!((round(&state, 1).pool, current(&state).pool), (0, 77));
}

#[test]
fn giving_up_needs_the_admin_or_time() {
    let (mut state, env, _admin, submitter) = stuck();
    let anyone = mk("anyone");
    let not_yet = ContractError::Unauthorized { role: "admin".to_string() };
    assert_eq!(execute(&mut state, &env, &from(&submitter), cancel()).unwrap_err(), not_yet);
    let early = advance(&env, CANCEL_GRACE_SECONDS - 1);
    assert_eq!(execute(&mut state, &early, &from(&anyone), cancel()).unwrap_err(), not_yet);
    let grace = advance(&env, CANCEL_GRACE_SECONDS);
    execute(&mut state, &grace, &from(&anyone), cancel()).unwrap();
    assert_eq!(round(&state, 1).status, RoundStatus::Cancelled);
}

#[test]
fn giving_up_is_refused_otherwise() {
    let (mut state, env, admin, submitter) = setup();
    let unknown = ExecuteMsg::CancelRound { round_id: 9 };
    assert_eq!(
        execute(&mut state, &env, &from(&admin), unknown).unwrap_err(),
        ContractError::RoundNotFound { round_id: 9 }
    );
    assert_eq!(
        execute(&mut state, &env, &from(&admin), cancel()).unwrap_err(),
        ContractError::UnexpectedStatus {
            round_id: 1,
            status: "open".to_string(),
            expected: "drawing".to_string(),
        }
    );
    let later = advance(&env, DRAW_INTERVAL);
    execute(&mut state, &later, &from(&admin), ExecuteMsg::CloseRound {}).unwrap();
    state.config.draw_interval = u64::MAX;
    assert_eq!(
        execute(&mut state, &later, &from(&admin), cancel()).unwrap_err(),
        invalid_config("draw_interval overflows round close time")
    );
    execute(&mut state, &later, &from(&submitter), submit(1, vec![7u8; 32])).unwrap();
    assert_eq!(
        execute(&mut state, &later, &from(&admin), cancel()).unwrap_err(),
        ContractError::AlreadyFulfilled { round_id: 1 }
    );
}

#[test]
fn missed_reveal_frees_the_round() {
    let (mut state, env, admin, submitter) = stuck();
    state.config.randomness_mode = RandomnessMode::CommitReveal;
    let commitment = sha256(&[1, 2, 3]).to_vec();
    let msg = ExecuteMsg::CommitRandomness { round_id: 1, commitment };
    execute(&mut state, &env, &from(&submitter), msg).unwrap();
    let request = round(&state, 1).randomness.unwrap();
    assert_eq!(request.committer, Some(submitter.clone()));
    assert_eq!(request.commit_height, Some(env.height));
    assert_eq!(request.reveal_deadline, Some(env.time_nanos / 1_000_000_000 + 3600));

    // Only whoever committed reveals, the admin included.
    let reveal = || ExecuteMsg::RevealRandomness { round_id: 1, value: vec![1, 2, 3] };
    assert_eq!(
        execute(&mut state, &env, &from(&admin), reveal()).unwrap_err(),
        ContractError::Unauthorized { role: "committer".to_string() }
    );
    let early = advance(&env, 3599);
    assert_eq!(
        execute(&mut state, &early, &from(&mk("anyone")), cancel()).unwrap_err(),
        ContractError::Unauthorized { role: "admin".to_string() }
    );
    let late = advance(&env, 3600);
    execute(&mut state, &late, &from(&mk("anyone")), cancel()).unwrap();
    assert_eq!(
        execute(&mut state, &late, &from(&submitter), reveal()).unwrap_err(),
        ContractError::UnexpectedStatus {
            round_id: 1,
            status: "cancelled".to_string(),
            expected: "drawing".to_string(),
        }
    );
}

// --- tickets of other rounds ------------------------------------------------

/// Two drawn rounds and an open one; the tickets of the second round are left out if
/// asked for.
fn three_rounds(complete: bool) -> State {
    let (mut state, _env, _admin, submitter) = setup();
    play(&mut state, &submitter, &[("a", FOUR), ("b", DUD)], 7);
    play(&mut state, &submitter, &[("a", DUD), ("b", FOUR)], 7);
    buy(&mut state, &block(), &mk("a"), 1, Some(DUD.to_vec()), None).unwrap();
    if !complete {
        state.rounds[1].tickets.clear();
    }
    assert!(state.is_well_formed());
    state
}

#[test]
fn tickets_of_other_rounds_do_not_matter() {
    let mut whole = three_rounds(true);
    let mut part = three_rounds(false);
    let second = three_rounds(true).rounds.remove(1);
    let late = advance(&block(), 10 * DRAW_INTERVAL);
    let claim = |round_id: u64| ExecuteMsg::ClaimReward { round_id, ticket_id: ticket_id(0) };
    let requests = || {
        vec![
            ("a", claim(1)),
            ("a", claim(1)),
            ("a", claim(3)),
            ("relayer", ExecuteMsg::CloseRound {}),
            ("relayer", submit(3, vec![7u8; 32])),
            ("relayer", ExecuteMsg::Draw { round_id: 3 }),
            ("relayer", ExecuteMsg::CloseRound {}),
            ("a", bind_to(&mk("b"))),
            ("admin", ExecuteMsg::Pause {}),
        ]
    };
    for ((who, x), (_, y)) in requests().into_iter().zip(requests()) {
        let a = execute(&mut whole, &late, &from(&mk(who)), x);
        let b = execute(&mut part, &late, &from(&mk(who)), y);
        assert_eq!(a, b);
    }
    assert_eq!(whole.rounds.len(), 4);
    for i in [0, 2, 3] {
        assert_eq!(whole.rounds[i], part.rounds[i]);
    }
    assert_eq!(whole.rounds[1], second);
    assert_eq!(whole.rounds[1].round, part.rounds[1].round);
    assert_eq!(cfg(&whole), cfg(&part));
    assert_eq!(held(&whole), held(&part));
    assert_eq!(round(&whole, 2), round(&part, 2));
    assert_eq!(prize(&whole, 1, &mk("a")), prize(&part, 1, &mk("a")));
}
