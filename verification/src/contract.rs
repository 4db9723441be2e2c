//! The contract's entry points: execute, query and migrate. A new contract is set
//! up by [`instantiate`](crate::admin::instantiate).

use crate::admin::{execute_set_paused, execute_withdraw_treasury, pause_outcome, withdraw_outcome};
use crate::beacon::bytes_view;
use crate::cancel::{cancel_outcome, execute_cancel_round};
use crate::codes::normalized;
use crate::constants::{CONTRACT_NAME, CONTRACT_VERSION};
use crate::error::{ContractError, ErrorView};
use crate::host::{addr_option_view, text_view, Env, InfoView, MessageInfo};
use crate::msg::{ExecuteMsg, MigrateMsg, QueryMsg, QueryReply, ReplyView};
use crate::outcome::{conforms, unless_refused, Outcome};
use crate::queries::{
    query_prize, query_referral_summary, query_referrer, query_round, query_tickets,
    query_treasury_balance, shown_prize, shown_referrer, shown_round, shown_summary, shown_tickets,
    shown_treasury,
};
use crate::randomness::{
    commit_outcome, execute_commit_randomness, execute_reveal_randomness,
    execute_submit_randomness, reveal_outcome, signature_digest, submit_outcome,
};
use crate::referral::{
    bind_outcome, claim_referral_outcome, execute_bind_referrer, execute_claim_referral,
    execute_register_code, normal_form, register_outcome,
};
use crate::response::{Event, EventView, Response, ResponseView};
use crate::rounds::{
    claim_outcome, close_outcome, draw_outcome, execute_claim_reward, execute_close_round,
    execute_draw,
};
use crate::sales::{buy_outcome, execute_buy_tickets, execute_grant_bonus_ticket, grant_outcome};
use crate::settings::{execute_set_config, set_config_outcome, SetConfigArgs};
use crate::state::{ContractVersion, State, StateView};
use crate::verify::sha256_digest;
use vstd::prelude::*;

verus! {

/// What a request leads to.
pub open spec fn execute_outcome(
    s: StateView,
    env: Env,
    info: InfoView,
    msg: ExecuteMsg,
) -> Outcome {
    match msg {
        ExecuteMsg::BuyTickets { count, numbers, referral_code } => buy_outcome(
            s,
            env,
            info,
            count,
            bytes_view(numbers),
            normal_form(text_view(referral_code)),
        ),
        ExecuteMsg::GrantBonusTicket { owner, count, numbers } => grant_outcome(
            s,
            env,
            info,
            owner@,
            count,
            bytes_view(numbers),
        ),
        ExecuteMsg::CloseRound {  } => close_outcome(s, env),
        ExecuteMsg::SubmitRandomness {
            round_id,
            randomness,
            signature,
            pairing,
        } => submit_outcome(
            s,
            info.sender,
            round_id,
            randomness@,
            bytes_view(signature),
            signature_digest(bytes_view(signature)),
            pairing@,
        ),
        ExecuteMsg::CommitRandomness { round_id, commitment } => commit_outcome(
            s,
            env,
            info.sender,
            round_id,
            commitment@,
        ),
        ExecuteMsg::RevealRandomness { round_id, value } => reveal_outcome(
            s,
            info.sender,
            round_id,
            sha256_digest(value@),
        ),
        ExecuteMsg::Draw { round_id } => draw_outcome(s, env, round_id),
        ExecuteMsg::CancelRound { round_id } => cancel_outcome(s, env, info.sender, round_id),
        ExecuteMsg::ClaimReward { round_id, ticket_id } => claim_outcome(
            s,
            info.sender,
            round_id,
            ticket_id@,
        ),
        ExecuteMsg::BindReferrer { referrer, code } => bind_outcome(
            s,
            info.sender,
            addr_option_view(referrer),
            text_view(code),
            normal_form(text_view(code)),
        ),
        ExecuteMsg::RegisterCode { code } => register_outcome(s, info.sender, normalized(code@)),
        ExecuteMsg::ClaimReferral {  } => claim_referral_outcome(s, info.sender),
        ExecuteMsg::WithdrawTreasury { to, amount } => withdraw_outcome(
            s,
            info.sender,
            to@,
            amount,
        ),
        ExecuteMsg::SetConfig {
            admin,
            ticket_price,
            draw_interval,
            split,
            rollover_on_no_winner,
            randomness_mode,
            verify_mode,
            drand_pubkey,
            drand_chain_hash,
            drand_genesis_time,
            drand_period,
            min_claim_usaf,
            reveal_timeout,
            open_code_registration,
            max_dry_rounds,
            add_submitters,
            remove_submitters,
        } => set_config_outcome(
            s,
            info.sender,
            SetConfigArgs {
                admin,
                ticket_price,
                draw_interval,
                split,
                rollover_on_no_winner,
                randomness_mode,
                verify_mode,
                drand_pubkey,
                drand_chain_hash,
                drand_genesis_time,
                drand_period,
                min_claim_usaf,
                reveal_timeout,
                open_code_registration,
                max_dry_rounds,
                add_submitters,
                remove_submitters,
            },
        ),
        ExecuteMsg::Pause {  } => pause_outcome(s, info.sender, true),
        ExecuteMsg::Unpause {  } => pause_outcome(s, info.sender, false),
    }
}

/// Handles a request. A refused request leaves the state as it was.
pub fn execute(
    state: &mut State,
    env: &Env,
    info: &MessageInfo,
    msg: ExecuteMsg,
) -> (result: Result<Response, ContractError>)
    requires
        old(state).wf(),
    ensures
        final(state).wf(),
        conforms(
            old(state)@,
            final(state)@,
            result,
            execute_outcome(old(state)@, *env, info@, msg),
        ),
{
    match msg {
        ExecuteMsg::BuyTickets { count, numbers, referral_code } => execute_buy_tickets(
            state,
            env,
            info,
            count,
            numbers,
            referral_code,
        ),
        ExecuteMsg::GrantBonusTicket { owner, count, numbers } => execute_grant_bonus_ticket(
            state,
            env,
            info,
            owner,
            count,
            numbers,
        ),
        ExecuteMsg::CloseRound {  } => execute_close_round(state, env),
        ExecuteMsg::SubmitRandomness {
            round_id,
            randomness,
            signature,
            pairing,
        } => execute_submit_randomness(state, info, round_id, randomness, signature, &pairing),
        ExecuteMsg::CommitRandomness { round_id, commitment } => execute_commit_randomness(
            state,
            env,
            info,
            round_id,
            commitment,
        ),
        ExecuteMsg::RevealRandomness { round_id, value } => execute_reveal_randomness(
            state,
            info,
            round_id,
            value,
        ),
        ExecuteMsg::Draw { round_id } => execute_draw(state, env, round_id),
        ExecuteMsg::CancelRound { round_id } => execute_cancel_round(state, env, info, round_id),
        ExecuteMsg::ClaimReward { round_id, ticket_id } => execute_claim_reward(
            state,
            info,
            round_id,
            ticket_id,
        ),
        ExecuteMsg::BindReferrer { referrer, code } => execute_bind_referrer(
            state,
            info,
            referrer,
            code,
        ),
        ExecuteMsg::RegisterCode { code } => execute_register_code(state, info, code),
        ExecuteMsg::ClaimReferral {  } => execute_claim_referral(state, info),
        ExecuteMsg::WithdrawTreasury { to, amount } => execute_withdraw_treasury(
            state,
            info,
            to,
            amount,
        ),
        ExecuteMsg::SetConfig {
            admin,
            ticket_price,
            draw_interval,
            split,
            rollover_on_no_winner,
            randomness_mode,
            verify_mode,
            drand_pubkey,
            drand_chain_hash,
            drand_genesis_time,
            drand_period,
            min_claim_usaf,
            reveal_timeout,
            open_code_registration,
            max_dry_rounds,
            add_submitters,
            remove_submitters,
        } => execute_set_config(
            state,
            info,
            SetConfigArgs {
                admin,
                ticket_price,
                draw_interval,
                split,
                rollover_on_no_winner,
                randomness_mode,
                verify_mode,
                drand_pubkey,
                drand_chain_hash,
                drand_genesis_time,
                drand_period,
                min_claim_usaf,
                reveal_timeout,
                open_code_registration,
                max_dry_rounds,
                add_submitters,
                remove_submitters,
            },
        ),
        ExecuteMsg::Pause {  } => execute_set_paused(state, info, true),
        ExecuteMsg::Unpause {  } => execute_set_paused(state, info, false),
    }
}

/// What a query is answered.
pub open spec fn query_outcome(s: StateView, msg: QueryMsg) -> Result<ReplyView, ErrorView> {
    match msg {
        QueryMsg::Config {  } => Ok(ReplyView::Config(s.config)),
        QueryMsg::CurrentRound {  } => match shown_round(s, s.current()) {
            Ok(r) => Ok(ReplyView::Round(r)),
            Err(e) => Err(e),
        },
        QueryMsg::Round { round_id } => match shown_round(s, round_id) {
            Ok(r) => Ok(ReplyView::Round(r)),
            Err(e) => Err(e),
        },
        QueryMsg::Tickets { round_id, owner, start_after, limit } => match shown_tickets(
            s,
            round_id,
            addr_option_view(owner),
            text_view(start_after),
            limit,
        ) {
            Ok(r) => Ok(ReplyView::Tickets(r)),
            Err(e) => Err(e),
        },
        QueryMsg::Prize { round_id, owner } => match shown_prize(s, round_id, owner@) {
            Ok(r) => Ok(ReplyView::Prize(r)),
            Err(e) => Err(e),
        },
        QueryMsg::Referrer { referee } => match shown_referrer(s, referee@) {
            Ok(r) => Ok(ReplyView::Referrer(r)),
            Err(e) => Err(e),
        },
        QueryMsg::ReferralSummary { addr } => match shown_summary(s, addr@) {
            Ok(r) => Ok(ReplyView::ReferralSummary(r)),
            Err(e) => Err(e),
        },
        QueryMsg::TreasuryBalance {  } => Ok(ReplyView::TreasuryBalance(shown_treasury(s))),
    }
}

/// Answers a query.
pub fn query(state: &State, msg: QueryMsg) -> (result: Result<QueryReply, ContractError>)
    requires
        state.wf(),
    ensures
        match query_outcome(state@, msg) {
            Ok(reply) => result matches Ok(r) && r@ == reply,
            Err(e) => result matches Err(error) && error@ == e,
        },
{
    match msg {
        QueryMsg::Config {  } => Ok(QueryReply::Config(state.config.copy())),
        QueryMsg::CurrentRound {  } => match query_round(state, state.rounds.len() as u64) {
            Ok(r) => Ok(QueryReply::Round(r)),
            Err(e) => Err(e),
        },
        QueryMsg::Round { round_id } => match query_round(state, round_id) {
            Ok(r) => Ok(QueryReply::Round(r)),
            Err(e) => Err(e),
        },
        QueryMsg::Tickets { round_id, owner, start_after, limit } => match query_tickets(
            state,
            round_id,
            owner,
            start_after,
            limit,
        ) {
            Ok(r) => Ok(QueryReply::Tickets(r)),
            Err(e) => Err(e),
        },
        QueryMsg::Prize { round_id, owner } => match query_prize(state, round_id, owner) {
            Ok(r) => Ok(QueryReply::Prize(r)),
            Err(e) => Err(e),
        },
        QueryMsg::Referrer { referee } => match query_referrer(state, referee) {
            Ok(r) => Ok(QueryReply::Referrer(r)),
            Err(e) => Err(e),
        },
        QueryMsg::ReferralSummary { addr } => match query_referral_summary(state, addr) {
            Ok(r) => Ok(QueryReply::ReferralSummary(r)),
            Err(e) => Err(e),
        },
        QueryMsg::TreasuryBalance {  } => Ok(
            QueryReply::TreasuryBalance(query_treasury_balance(state)),
        ),
    }
}

/// What a migration leads to: the version is brought up to date, unless the state
/// belongs to another contract.
pub open spec fn migrate_outcome(s: StateView) -> Outcome {
    unless_refused(
        if s.version.contract != CONTRACT_NAME@ {
            Some(
                ContractError::InvalidMigration {
                    expected: CONTRACT_NAME@,
                    found: s.version.contract,
                },
            )
        } else {
            None
        },
        StateView {
            version: ContractVersion { contract: CONTRACT_NAME@, version: CONTRACT_VERSION@ },
            ..s
        },
        ResponseView::recording(
            EventView::named("winsaf/migrate"@).attr("from_version"@, s.version.version).attr(
                "to_version"@,
                CONTRACT_VERSION@,
            ),
        ),
    )
}

/// Takes over a state that an earlier version of this contract wrote.
pub fn migrate(state: &mut State, _msg: MigrateMsg) -> (result: Result<Response, ContractError>)
    requires
        old(state).wf(),
    ensures
        final(state).wf(),
        conforms(old(state)@, final(state)@, result, migrate_outcome(old(state)@)),
{
    let name = CONTRACT_NAME.to_owned();
    if state.version.contract != name {
        return Err(
            ContractError::InvalidMigration {
                expected: name,
                found: state.version.contract.clone(),
            },
        );
    }
    let from = state.version.version.clone();
    state.version = ContractVersion { contract: name, version: CONTRACT_VERSION.to_owned() };
    let event = Event::new("winsaf/migrate").attr("from_version", from).attr(
        "to_version",
        CONTRACT_VERSION.to_owned(),
    );
    Ok(Response::recording(event))
}

} // verus!
