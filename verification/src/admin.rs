//! Setting the contract up and what is reserved to its admin.

use crate::constants::{
    CONTRACT_NAME, CONTRACT_VERSION, DEFAULT_DRAW_INTERVAL_SECONDS, DEFAULT_NUMBER_MAX,
    DEFAULT_MAX_DRY_ROUNDS, DEFAULT_PICK_COUNT, DEFAULT_REVEAL_TIMEOUT_SECONDS,
    DEFAULT_TICKET_PRICE_USAF, DENOM, DRAND_QUICKNET_GENESIS, DRAND_QUICKNET_PERIOD,
};
use crate::error::{ContractError, ErrorView};
use crate::host::{addrs_view, AddrText, AddrView, Env, InfoView, MessageInfo};
use crate::money::{Coin, CoinView};
use crate::msg::InstantiateMsg;
use crate::outcome::{conforms, unless_refused, Outcome};
use crate::picks::{domain_refusal, validate_number_domain};
use crate::response::{Event, EventView, Response, ResponseView};
use crate::split::FundSplitBps;
use crate::state::{
    default_max_dry_rounds, has_text, in_place, rounds_view, tickets_view, Config, ConfigView,
    ContractVersion, LedgerView, RandomnessMode, Round, RoundLedger, RoundView, State, StateView,
    TicketView, VerifyMode,
};
use crate::table::Table;
use crate::text::{bool_text, bool_word, decimal, decimal_text, join3, texts};
use crate::verify::G2_LEN;
use vstd::prelude::*;
use vstd::string::*;

verus! {

/// Why the randomness part of a configuration is refused: drand needs a chain
/// hash, and with the pairing check also a group key, a point in G2.
pub open spec fn randomness_config_refusal(config: ConfigView) -> Option<ErrorView> {
    if config.randomness_mode != RandomnessMode::Drand {
        None
    } else if config.drand_chain_hash.len() == 0 {
        Some(
            ContractError::InvalidConfig { reason: "drand_chain_hash is required in drand mode"@ },
        )
    } else if config.verify_mode == VerifyMode::Bls && config.drand_pubkey.len() != G2_LEN {
        Some(
            ContractError::InvalidPubkey {
                reason: "drand mode with BLS verification requires a 96-byte G2 public key"@,
            },
        )
    } else {
        None
    }
}

/// Checks the randomness part of a configuration.
pub fn validate_randomness_config(config: &Config) -> (result: Result<(), ContractError>)
    ensures
        match randomness_config_refusal(config@) {
            Some(e) => result matches Err(error) && error@ == e,
            None => result is Ok,
        },
{
    if matches!(config.randomness_mode, RandomnessMode::Drand) {
        if config.drand_chain_hash.as_str().is_empty() {
            return Err(
                ContractError::invalid_config("drand_chain_hash is required in drand mode"),
            );
        }
        if matches!(config.verify_mode, VerifyMode::Bls) && config.drand_pubkey.len() != G2_LEN {
            return Err(
                ContractError::InvalidPubkey {
                    reason:
                        "drand mode with BLS verification requires a 96-byte G2 public key".to_owned(),
                },
            );
        }
    }
    Ok(())
}

/// The addresses behind some account names, each once and in order, or the host's
/// objection to the first name that has none.
pub open spec fn addresses(names: Seq<AddrView>) -> Result<Seq<Seq<char>>, ErrorView>
    decreases names.len(),
{
    if names.len() == 0 {
        Ok(Seq::empty())
    } else {
        match addresses(names.drop_last()) {
            Err(e) => Err(e),
            Ok(known) => match names.last().verdict {
                Err(reason) => Err(ContractError::Std(reason)),
                Ok(address) => Ok(
                    if known.contains(address) {
                        known
                    } else {
                        known.push(address)
                    },
                ),
            },
        }
    }
}

pub proof fn lemma_addresses_failure(names: Seq<AddrView>, n: int)
    requires
        0 <= n <= names.len(),
        addresses(names.take(n)) is Err,
    ensures
        addresses(names) == addresses(names.take(n)),
    decreases names.len() - n,
{
    if n == names.len() {
        assert(names.take(n) =~= names);
    } else {
        assert(names.take(n + 1).drop_last() =~= names.take(n));
        lemma_addresses_failure(names, n + 1);
    }
}

/// Collects the addresses behind some account names, each once.
pub fn validate_addrs(names: &Vec<AddrText>) -> (result: Result<Vec<String>, ContractError>)
    ensures
        match addresses(addrs_view(names@)) {
            Err(e) => result matches Err(error) && error@ == e,
            Ok(known) => result matches Ok(list) && texts(list@) == known,
        },
{
    let ghost shown = addrs_view(names@);
    let mut known: Vec<String> = Vec::new();
    let mut i: usize = 0;
    assert(shown.take(0) =~= Seq::<AddrView>::empty());
    assert(texts(known@) =~= Seq::<Seq<char>>::empty());
    while i < names.len()
        invariant
            i <= names.len(),
            shown == addrs_view(names@),
            addresses(shown.take(i as int)) == Ok::<Seq<Seq<char>>, ErrorView>(texts(known@)),
        decreases names.len() - i,
    {
        proof {
            assert(shown.take(i + 1).drop_last() =~= shown.take(i as int));
            assert(shown.take(i + 1).last() == names@[i as int]@);
        }
        match &names[i].verdict {
            Err(reason) => {
                proof {
                    lemma_addresses_failure(shown, i + 1);
                }
                return Err(ContractError::Std(reason.clone()));
            },
            Ok(address) => {
                if !has_text(&known, address) {
                    let ghost before = texts(known@);
                    known.push(address.clone());
                    assert(texts(known@) =~= before.push(address@));
                }
            },
        }
        i = i + 1;
    }
    assert(shown.take(i as int) =~= shown);
    Ok(known)
}

/// Why a ticket price is refused.
pub open spec fn price_refusal(price: CoinView, denom: Seq<char>) -> Option<ErrorView> {
    if price.denom != denom {
        Some(
            ContractError::InvalidConfig {
                reason: "ticket_price denom must be '"@ + denom + "'"@,
            },
        )
    } else if price.amount == 0 {
        Some(ContractError::InvalidConfig { reason: "ticket_price must be non-zero"@ })
    } else {
        None
    }
}

/// Checks a ticket price against the denomination of the contract.
pub fn check_price(price: &Coin, denom: &String) -> (result: Result<(), ContractError>)
    ensures
        match price_refusal(price@, denom@) {
            Some(e) => result matches Err(error) && error@ == e,
            None => result is Ok,
        },
{
    if price.denom != *denom {
        return Err(
            ContractError::InvalidConfig {
                reason: join3("ticket_price denom must be '", denom.as_str(), "'"),
            },
        );
    }
    if price.amount == 0 {
        return Err(ContractError::invalid_config("ticket_price must be non-zero"));
    }
    Ok(())
}

/// Why a draw interval is refused.
pub open spec fn interval_refusal(draw_interval: u64) -> Option<ErrorView> {
    if draw_interval == 0 {
        Some(ContractError::InvalidConfig { reason: "draw_interval must be non-zero"@ })
    } else {
        None
    }
}

/// The configuration with the beacon's clock in order: in drand mode that of
/// quicknet where none is given, otherwise none.
pub open spec fn with_beacon_clock(config: ConfigView) -> ConfigView {
    if config.randomness_mode != RandomnessMode::Drand {
        ConfigView { drand_genesis_time: 0, drand_period: 0, ..config }
    } else {
        ConfigView {
            drand_genesis_time: if config.drand_genesis_time == 0 {
                DRAND_QUICKNET_GENESIS
            } else {
                config.drand_genesis_time
            },
            drand_period: if config.drand_period == 0 {
                DRAND_QUICKNET_PERIOD
            } else {
                config.drand_period
            },
            ..config
        }
    }
}

/// Puts the beacon's clock of a configuration in order.
pub fn set_beacon_clock(config: &mut Config)
    ensures
        final(config)@ == with_beacon_clock(old(config)@),
{
    if !matches!(config.randomness_mode, RandomnessMode::Drand) {
        config.drand_genesis_time = 0;
        config.drand_period = 0;
    } else {
        if config.drand_genesis_time == 0 {
            config.drand_genesis_time = DRAND_QUICKNET_GENESIS;
        }
        if config.drand_period == 0 {
            config.drand_period = DRAND_QUICKNET_PERIOD;
        }
    }
}

/// The admin of a new contract.
pub open spec fn first_admin(info: InfoView, msg: InstantiateMsg) -> Result<Seq<char>, ErrorView> {
    match msg.admin {
        Some(name) => match name@.verdict {
            Ok(address) => Ok(address),
            Err(reason) => Err(ContractError::Std(reason)),
        },
        None => Ok(info.sender),
    }
}

/// The configuration that a new contract asks for, before it is checked.
pub open spec fn requested_config(info: InfoView, msg: InstantiateMsg) -> ConfigView {
    let denom = match msg.denom {
        Some(denom) => denom@,
        None => DENOM@,
    };
    with_beacon_clock(ConfigView {
        admin: first_admin(info, msg)->Ok_0,
        denom,
        ticket_price: match msg.ticket_price {
            Some(price) => price@,
            None => Coin { denom, amount: DEFAULT_TICKET_PRICE_USAF },
        },
        draw_interval: match msg.draw_interval {
            Some(seconds) => seconds,
            None => DEFAULT_DRAW_INTERVAL_SECONDS,
        },
        numbers_per_ticket: match msg.numbers_per_ticket {
            Some(count) => count,
            None => DEFAULT_PICK_COUNT,
        },
        number_max: match msg.number_max {
            Some(max) => max,
            None => DEFAULT_NUMBER_MAX,
        },
        split: match msg.split {
            Some(split) => split,
            None => FundSplitBps::standard(),
        },
        rollover_on_no_winner: match msg.rollover_on_no_winner {
            Some(yes) => yes,
            None => true,
        },
        paused: false,
        randomness_mode: match msg.randomness_mode {
            Some(mode) => mode,
            None => RandomnessMode::Mock,
        },
        verify_mode: match msg.verify_mode {
            Some(mode) => mode,
            None => VerifyMode::Dev,
        },
        drand_pubkey: match msg.drand_pubkey {
            Some(key) => key@,
            None => Seq::empty(),
        },
        drand_chain_hash: match msg.drand_chain_hash {
            Some(hash) => hash@,
            None => Seq::empty(),
        },
        drand_genesis_time: match msg.drand_genesis_time {
            Some(time) => time,
            None => 0,
        },
        drand_period: match msg.drand_period {
            Some(seconds) => seconds,
            None => 0,
        },
        authorized_submitters: addresses(addrs_view(msg.authorized_submitters@))->Ok_0,
        min_claim_usaf: match msg.min_claim_usaf {
            Some(floor) => floor,
            None => 0,
        },
        reveal_timeout: match msg.reveal_timeout {
            Some(seconds) => seconds,
            None => DEFAULT_REVEAL_TIMEOUT_SECONDS,
        },
        open_code_registration: match msg.open_code_registration {
            Some(yes) => yes,
            None => false,
        },
        max_dry_rounds: match msg.max_dry_rounds {
            Some(rounds) => rounds,
            None => DEFAULT_MAX_DRY_ROUNDS,
        },
    })
}

/// Why the rules of the game in a configuration are refused.
pub open spec fn rules_refusal(config: ConfigView) -> Option<ErrorView> {
    if config.denom.len() == 0 {
        Some(ContractError::InvalidConfig { reason: "denom must not be empty"@ })
    } else if price_refusal(config.ticket_price, config.denom) is Some {
        price_refusal(config.ticket_price, config.denom)
    } else if interval_refusal(config.draw_interval) is Some {
        interval_refusal(config.draw_interval)
    } else if domain_refusal(config.numbers_per_ticket, config.number_max) is Some {
        domain_refusal(config.numbers_per_ticket, config.number_max)
    } else if config.split.refusal() is Some {
        Some(ContractError::Shared(config.split.refusal()->0))
    } else {
        None
    }
}

fn check_rules(config: &Config) -> (result: Result<(), ContractError>)
    ensures
        match rules_refusal(config@) {
            Some(e) => result matches Err(error) && error@ == e,
            None => result is Ok && config@.domain_ok(),
        },
{
    if config.denom.as_str().is_empty() {
        return Err(ContractError::invalid_config("denom must not be empty"));
    }
    match check_price(&config.ticket_price, &config.denom) {
        Ok(()) => {},
        Err(e) => return Err(e),
    }
    if config.draw_interval == 0 {
        return Err(ContractError::invalid_config("draw_interval must be non-zero"));
    }
    match validate_number_domain(config.numbers_per_ticket, config.number_max) {
        Ok(()) => {},
        Err(e) => return Err(e),
    }
    match config.split.validate() {
        Ok(()) => Ok(()),
        Err(e) => Err(ContractError::Shared(e)),
    }
}

/// Why a new contract is refused.
pub open spec fn instantiate_refusal(env: Env, info: InfoView, msg: InstantiateMsg) -> Option<
    ErrorView,
> {
    let config = requested_config(info, msg);
    if first_admin(info, msg) is Err {
        Some(first_admin(info, msg)->Err_0)
    } else if rules_refusal(config) is Some {
        rules_refusal(config)
    } else if addresses(addrs_view(msg.authorized_submitters@)) is Err {
        Some(addresses(addrs_view(msg.authorized_submitters@))->Err_0)
    } else if randomness_config_refusal(config) is Some {
        randomness_config_refusal(config)
    } else if env.now() + config.draw_interval > u64::MAX {
        Some(
            ContractError::InvalidConfig { reason: "draw_interval overflows round close time"@ },
        )
    } else {
        None
    }
}

/// The state of a new contract with that configuration: the first round is open
/// and all ledgers are empty.
pub open spec fn fresh_state(env: Env, config: ConfigView) -> StateView {
    StateView {
        version: ContractVersion { contract: CONTRACT_NAME@, version: CONTRACT_VERSION@ },
        config,
        treasury: 0,
        dry_streak: 0,
        rounds: seq![
            LedgerView {
                round: RoundView::opened(
                    1,
                    env.now(),
                    (env.now() + config.draw_interval) as u64,
                    0,
                    None,
                ),
                tickets: Seq::empty(),
                randomness: None,
            },
        ],
        referrer: Map::empty(),
        earnings: Map::empty(),
        codes: Map::empty(),
        totals: Map::empty(),
    }
}

/// The event of a new contract.
pub open spec fn instantiate_event(config: ConfigView) -> EventView {
    EventView::named("winsaf/instantiate"@).attr("admin"@, config.admin).attr(
        "denom"@,
        config.denom,
    ).attr("ticket_price"@, decimal(config.ticket_price.amount as nat)).attr(
        "numbers_per_ticket"@,
        decimal(config.numbers_per_ticket as nat),
    ).attr("number_max"@, decimal(config.number_max as nat)).attr(
        "randomness_mode"@,
        config.randomness_mode.word(),
    ).attr("round_id"@, decimal(1))
}

/// What a new contract leads to.
pub open spec fn instantiate_outcome(env: Env, info: InfoView, msg: InstantiateMsg) -> Outcome {
    let config = requested_config(info, msg);
    unless_refused(
        instantiate_refusal(env, info, msg),
        fresh_state(env, config),
        ResponseView::recording(instantiate_event(config)),
    )
}

/// Fills in the defaults of a new contract's configuration.
fn fill_config(
    info: &MessageInfo,
    msg: InstantiateMsg,
    admin: String,
    submitters: Vec<String>,
) -> (config: Config)
    requires
        first_admin(info@, msg) == Ok::<Seq<char>, ErrorView>(admin@),
    ensures
        config@ == (ConfigView {
            authorized_submitters: texts(submitters@),
            ..requested_config(info@, msg)
        }),
{
    let denom: String = match msg.denom {
        Some(denom) => denom,
        None => DENOM.to_owned(),
    };
    let ticket_price: Coin = match msg.ticket_price {
        Some(price) => price,
        None => Coin { denom: denom.clone(), amount: DEFAULT_TICKET_PRICE_USAF },
    };
    let drand_pubkey: Vec<u8> = match msg.drand_pubkey {
        Some(key) => key,
        None => Vec::new(),
    };
    let drand_chain_hash: String = match msg.drand_chain_hash {
        Some(hash) => hash,
        None => String::new(),
    };
    let mut config = Config {
        admin,
        denom,
        ticket_price,
        draw_interval: match msg.draw_interval {
            Some(seconds) => seconds,
            None => DEFAULT_DRAW_INTERVAL_SECONDS,
        },
        numbers_per_ticket: match msg.numbers_per_ticket {
            Some(count) => count,
            None => DEFAULT_PICK_COUNT,
        },
        number_max: match msg.number_max {
            Some(max) => max,
            None => DEFAULT_NUMBER_MAX,
        },
        split: match msg.split {
            Some(split) => split,
            None => FundSplitBps::default_split(),
        },
        rollover_on_no_winner: match msg.rollover_on_no_winner {
            Some(yes) => yes,
            None => true,
        },
        paused: false,
        randomness_mode: match msg.randomness_mode {
            Some(mode) => mode,
            None => RandomnessMode::Mock,
        },
        verify_mode: match msg.verify_mode {
            Some(mode) => mode,
            None => VerifyMode::Dev,
        },
        drand_pubkey,
        drand_chain_hash,
        drand_genesis_time: match msg.drand_genesis_time {
            Some(time) => time,
            None => 0,
        },
        drand_period: match msg.drand_period {
            Some(seconds) => seconds,
            None => 0,
        },
        authorized_submitters: submitters,
        min_claim_usaf: match msg.min_claim_usaf {
            Some(floor) => floor,
            None => 0,
        },
        reveal_timeout: match msg.reveal_timeout {
            Some(seconds) => seconds,
            None => DEFAULT_REVEAL_TIMEOUT_SECONDS,
        },
        open_code_registration: match msg.open_code_registration {
            Some(yes) => yes,
            None => false,
        },
        max_dry_rounds: match msg.max_dry_rounds {
            Some(rounds) => rounds,
            None => default_max_dry_rounds(),
        },
    };
    set_beacon_clock(&mut config);
    config
}

/// The configuration of a new contract.
fn new_config(info: &MessageInfo, msg: InstantiateMsg, Ghost(env): Ghost<Env>) -> (result: Result<
    Config,
    ContractError,
>)
    ensures
        match result {
            Ok(config) => config@ == requested_config(info@, msg) && instantiate_refusal(
                env,
                info@,
                msg,
            ) == (if env.now() + config.draw_interval > u64::MAX {
                Some(
                    ErrorView::InvalidConfig {
                        reason: "draw_interval overflows round close time"@,
                    },
                )
            } else {
                None
            }) && config@.domain_ok(),
            Err(error) => instantiate_refusal(env, info@, msg) == Some(error@),
        },
{
    let admin: String = match &msg.admin {
        Some(name) => match &name.verdict {
            Ok(address) => address.clone(),
            Err(reason) => return Err(ContractError::Std(reason.clone())),
        },
        None => info.sender.clone(),
    };
    let (submitters, objection): (Vec<String>, Option<ContractError>) = match validate_addrs(
        &msg.authorized_submitters,
    ) {
        Ok(list) => (list, None),
        Err(e) => (Vec::new(), Some(e)),
    };
    let config = fill_config(info, msg, admin, submitters);
    assert(rules_refusal(config@) == rules_refusal(requested_config(info@, msg)));
    match check_rules(&config) {
        Ok(()) => {},
        Err(e) => return Err(e),
    }
    match objection {
        Some(e) => return Err(e),
        None => {},
    }
    assert(config@ == requested_config(info@, msg));
    match validate_randomness_config(&config) {
        Ok(()) => Ok(config),
        Err(e) => Err(e),
    }
}

/// Sets up a new contract and opens its first round.
pub fn instantiate(env: &Env, info: &MessageInfo, msg: InstantiateMsg) -> (result: Result<
    (State, Response),
    ContractError,
>)
    ensures
        match instantiate_outcome(*env, info@, msg) {
            Ok((next, response)) => result matches Ok((state, reply)) && state@ == next
                && state.wf() && reply@ == response,
            Err(e) => result matches Err(error) && error@ == e,
        },
{
    let config: Config = match new_config(info, msg, Ghost(*env)) {
        Ok(config) => config,
        Err(e) => return Err(e),
    };
    let opens_at: u64 = env.seconds();
    let closes_at: u64 = match opens_at.checked_add(config.draw_interval) {
        Some(closes_at) => closes_at,
        None => return Err(
            ContractError::invalid_config("draw_interval overflows round close time"),
        ),
    };
    let event = Event::new("winsaf/instantiate").attr("admin", config.admin.clone()).attr(
        "denom",
        config.denom.clone(),
    ).attr("ticket_price", decimal_text(config.ticket_price.amount)).attr(
        "numbers_per_ticket",
        decimal_text(config.numbers_per_ticket as u128),
    ).attr("number_max", decimal_text(config.number_max as u128)).attr(
        "randomness_mode",
        config.randomness_mode.as_str().to_owned(),
    ).attr("round_id", decimal_text(1));
    let first = RoundLedger {
        round: Round::new_open(1, opens_at, closes_at, 0, None),
        tickets: Vec::new(),
        randomness: None,
    };
    assert(tickets_view(first.tickets@) =~= Seq::<TicketView>::empty());
    let rounds: Vec<RoundLedger> = vec![first];
    assert(rounds_view(rounds@) =~= seq![first@]);
    let state = State {
        version: ContractVersion {
            contract: CONTRACT_NAME.to_owned(),
            version: CONTRACT_VERSION.to_owned(),
        },
        config,
        treasury: 0,
        rounds,
        dry_streak: 0,
        referrer: Table::new(),
        earnings: Table::new(),
        codes: Table::new(),
        totals: Table::new(),
    };
    assert(state@ =~= fresh_state(*env, config@));
    assert(in_place(state@.rounds, 0));
    Ok((state, Response::recording(event)))
}

/// The refusal of what is reserved to the admin.
pub open spec fn not_admin() -> ErrorView {
    ContractError::Unauthorized { role: "admin"@ }
}

/// Why a withdrawal is refused.
pub open spec fn withdraw_refusal(
    s: StateView,
    sender: Seq<char>,
    to: AddrView,
    amount: u128,
) -> Option<ErrorView> {
    if sender != s.config.admin {
        Some(not_admin())
    } else if amount == 0 {
        Some(ContractError::ZeroWithdraw)
    } else if to.verdict is Err {
        Some(ContractError::Std(to.verdict->Err_0))
    } else if amount > s.treasury {
        Some(
            ContractError::InsufficientTreasury {
                requested: decimal(amount as nat),
                available: decimal(s.treasury),
            },
        )
    } else {
        None
    }
}

/// What a withdrawal leads to.
pub open spec fn withdraw_outcome(
    s: StateView,
    sender: Seq<char>,
    to: AddrView,
    amount: u128,
) -> Outcome {
    let recipient = to.verdict->Ok_0;
    let remaining = (s.treasury - amount) as nat;
    unless_refused(
        withdraw_refusal(s, sender, to, amount),
        StateView { treasury: remaining, ..s },
        ResponseView::paying(
            recipient,
            Coin { denom: s.config.denom, amount },
            EventView::named("winsaf/withdraw_treasury"@).attr("by"@, sender).attr(
                "to"@,
                recipient,
            ).attr("amount"@, decimal(amount as nat)).attr("remaining"@, decimal(remaining)),
        ),
    )
}

/// Sends part of the treasury to an account.
pub fn execute_withdraw_treasury(
    state: &mut State,
    info: &MessageInfo,
    to: AddrText,
    amount: u128,
) -> (result: Result<Response, ContractError>)
    requires
        old(state).wf(),
    ensures
        final(state).wf(),
        conforms(
            old(state)@,
            final(state)@,
            result,
            withdraw_outcome(old(state)@, info@.sender, to@, amount),
        ),
{
    if !state.config.is_admin(&info.sender) {
        return Err(ContractError::unauthorized("admin"));
    }
    if amount == 0 {
        return Err(ContractError::ZeroWithdraw);
    }
    let recipient: String = match to.verdict {
        Ok(address) => address,
        Err(reason) => return Err(ContractError::Std(reason)),
    };
    if amount > state.treasury {
        return Err(
            ContractError::InsufficientTreasury {
                requested: decimal_text(amount),
                available: decimal_text(state.treasury),
            },
        );
    }
    let remaining: u128 = state.treasury - amount;
    state.treasury = remaining;
    let coin = Coin { denom: state.config.denom.clone(), amount };
    let event = Event::new("winsaf/withdraw_treasury").attr("by", info.sender.clone()).attr(
        "to",
        recipient.clone(),
    ).attr("amount", decimal_text(amount)).attr("remaining", decimal_text(remaining));
    Ok(Response::paying(recipient, coin, event))
}

/// What blocking or resuming sales leads to.
pub open spec fn pause_outcome(s: StateView, sender: Seq<char>, paused: bool) -> Outcome {
    unless_refused(
        if sender != s.config.admin {
            Some(not_admin())
        } else {
            None
        },
        StateView { config: ConfigView { paused, ..s.config }, ..s },
        ResponseView::recording(
            EventView::named("winsaf/pause"@).attr("paused"@, bool_word(paused)),
        ),
    )
}

/// Blocks ticket sales or resumes them.
pub fn execute_set_paused(state: &mut State, info: &MessageInfo, paused: bool) -> (result: Result<
    Response,
    ContractError,
>)
    requires
        old(state).wf(),
    ensures
        final(state).wf(),
        conforms(
            old(state)@,
            final(state)@,
            result,
            pause_outcome(old(state)@, info@.sender, paused),
        ),
{
    if !state.config.is_admin(&info.sender) {
        return Err(ContractError::unauthorized("admin"));
    }
    state.config.paused = paused;
    let event = Event::new("winsaf/pause").attr("paused", bool_text(paused));
    Ok(Response::recording(event))
}

} // verus!
