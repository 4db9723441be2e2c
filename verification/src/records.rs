//! What the events of accepted requests tell.

use crate::admin::instantiate_outcome;
use crate::codes::{lowercased, trimmed};
use crate::contract::{execute_outcome, migrate_outcome};
use crate::draw_terms::{prize_total, with_all, with_matches};
use crate::host::{AddrText, Env, InfoView};
use crate::msg::{ExecuteMsg, InstantiateMsg};
use crate::referral_terms::pending_of;
use crate::response::ResponseView;
use crate::rounds::draw_of;
use crate::soundness::{ledger_sound, sound};
use crate::state::{in_place, RandomnessMode, StateView};
use crate::text::{csv, decimal, hex};
use crate::ticket_ids::ticket_name;
use crate::verify::{sha256_digest, PairingAnswer};
use vstd::prelude::*;

verus! {

/// Whether a reply records one event, of this kind and with these details.
pub open spec fn records(
    response: ResponseView,
    ty: Seq<char>,
    details: Seq<(Seq<char>, Seq<char>)>,
) -> bool {
    &&& response.events.len() == 1
    &&& response.events[0].ty == ty
    &&& response.events[0].attributes.len() == details.len()
    &&& forall|i: int|
        0 <= i < details.len() ==> (#[trigger] response.events[0].attributes[i]).key
            == details[i].0 && response.events[0].attributes[i].value == details[i].1
}

/// The record of a purchase tells where the money went and which tickets were sold.
pub proof fn law_purchase_is_recorded(
    s: StateView,
    env: Env,
    info: InfoView,
    count: u32,
    numbers: Option<Vec<u8>>,
    referral_code: Option<String>,
)
    requires
        s.wf(),
    ensures
        execute_outcome(
            s,
            env,
            info,
            ExecuteMsg::BuyTickets { count, numbers, referral_code },
        ) matches Ok((next, response)) ==> {
            let total = s.config.ticket_price.amount * count;
            let before = s.rounds.last();
            let after = next.rounds.last();
            let pool_gain = after.round.pool - before.round.pool;
            let treasury_gain = next.treasury - s.treasury;
            let credited = total - pool_gain - treasury_gain;
            records(
                response,
                "winsaf/buy"@,
                seq![
                    ("round_id"@, decimal(s.rounds.len())),
                    ("buyer"@, info.sender),
                    ("count"@, decimal(count as nat)),
                    ("paid"@, decimal(total as nat)),
                    ("prize_added"@, decimal(pool_gain as nat)),
                    ("treasury_added"@, decimal(treasury_gain as nat)),
                    ("referral_credited"@, decimal(credited as nat)),
                    (
                        "referrer"@,
                        if credited > 0 {
                            next.referrer[info.sender]
                        } else {
                            ""@
                        },
                    ),
                    ("pool"@, decimal(after.round.pool)),
                    ("first_ticket_id"@, ticket_name(before.tickets.len())),
                    ("last_ticket_id"@, ticket_name((after.tickets.len() - 1) as nat)),
                    (
                        "new_player"@,
                        if exists|i: int|
                            0 <= i < before.tickets.len() && (#[trigger] before.tickets[i]).owner
                                == info.sender {
                            "false"@
                        } else {
                            "true"@
                        },
                    ),
                ],
            )
        },
{
    assert(in_place(s.rounds, s.rounds.len() - 1));
}

/// The record of a grant tells who paid for which tickets of whom.
pub proof fn law_grant_is_recorded(
    s: StateView,
    env: Env,
    info: InfoView,
    owner: AddrText,
    count: u32,
    numbers: Option<Vec<u8>>,
)
    requires
        s.wf(),
    ensures
        execute_outcome(
            s,
            env,
            info,
            ExecuteMsg::GrantBonusTicket { owner, count, numbers },
        ) matches Ok((next, response)) ==> {
            let before = s.rounds.last();
            let after = next.rounds.last();
            let who = owner.verdict->Ok_0@;
            records(
                response,
                "winsaf/grant_bonus"@,
                seq![
                    ("round_id"@, decimal(s.rounds.len())),
                    ("owner"@, who),
                    ("sponsor"@, info.sender),
                    ("count"@, decimal(count as nat)),
                    ("paid"@, decimal((after.round.pool - before.round.pool) as nat)),
                    ("pool"@, decimal(after.round.pool)),
                    ("first_ticket_id"@, ticket_name(before.tickets.len())),
                    ("last_ticket_id"@, ticket_name((after.tickets.len() - 1) as nat)),
                    (
                        "new_player"@,
                        if exists|i: int|
                            0 <= i < before.tickets.len() && (#[trigger] before.tickets[i]).owner
                                == who {
                            "false"@
                        } else {
                            "true"@
                        },
                    ),
                ],
            )
        },
{
    assert(in_place(s.rounds, s.rounds.len() - 1));
}

/// The record of a closed round tells what was sold.
pub proof fn law_close_is_recorded(s: StateView, env: Env, info: InfoView)
    requires
        s.wf(),
    ensures
        execute_outcome(s, env, info, ExecuteMsg::CloseRound {  }) matches Ok((next, response))
            ==> records(
            response,
            "winsaf/close"@,
            seq![
                ("round_id"@, decimal(s.rounds.len())),
                ("ticket_count"@, decimal(s.rounds.last().round.ticket_count as nat)),
                ("pool"@, decimal(s.rounds.last().round.pool)),
            ],
        ),
{
    assert(in_place(s.rounds, s.rounds.len() - 1));
}

/// The record of delivered randomness tells the mode and the randomness.
pub proof fn law_submission_is_recorded(
    s: StateView,
    env: Env,
    info: InfoView,
    round_id: u64,
    randomness: Vec<u8>,
    signature: Option<Vec<u8>>,
    pairing: PairingAnswer,
)
    ensures
        execute_outcome(
            s,
            env,
            info,
            ExecuteMsg::SubmitRandomness { round_id, randomness, signature, pairing },
        ) matches Ok((_, response)) ==> records(
            response,
            "winsaf/submit_randomness"@,
            seq![
                ("round_id"@, decimal(round_id as nat)),
                (
                    "mode"@,
                    if s.config.randomness_mode == RandomnessMode::Drand {
                        "drand"@
                    } else {
                        "mock"@
                    },
                ),
                ("randomness"@, hex(randomness@)),
            ],
        ),
{
}

/// The record of a commitment tells who made it.
pub proof fn law_commitment_is_recorded(
    s: StateView,
    env: Env,
    info: InfoView,
    round_id: u64,
    commitment: Vec<u8>,
)
    ensures
        execute_outcome(
            s,
            env,
            info,
            ExecuteMsg::CommitRandomness { round_id, commitment },
        ) matches Ok((_, response)) ==> records(
            response,
            "winsaf/commit_randomness"@,
            seq![
                ("round_id"@, decimal(round_id as nat)),
                ("committer"@, info.sender),
                ("commitment"@, hex(commitment@)),
            ],
        ),
{
}

/// The record of a reveal tells the randomness.
pub proof fn law_reveal_is_recorded(
    s: StateView,
    env: Env,
    info: InfoView,
    round_id: u64,
    value: Vec<u8>,
)
    ensures
        execute_outcome(
            s,
            env,
            info,
            ExecuteMsg::RevealRandomness { round_id, value },
        ) matches Ok((_, response)) ==> records(
            response,
            "winsaf/reveal_randomness"@,
            seq![
                ("round_id"@, decimal(round_id as nat)),
                ("randomness"@, hex(sha256_digest(value@))),
            ],
        ),
{
}

/// The record of a draw tells the winning numbers, the winners and where the pool went.
pub proof fn law_draw_is_recorded(s: StateView, env: Env, info: InfoView, round_id: u64)
    requires
        sound(s),
    ensures
        execute_outcome(s, env, info, ExecuteMsg::Draw { round_id }) matches Ok((next, response))
            ==> {
            let after = next.rounds[round_id - 1];
            records(
                response,
                "winsaf/draw"@,
                seq![
                    ("round_id"@, decimal(round_id as nat)),
                    ("winning_numbers"@, csv(after.round.winning_numbers->0)),
                    ("winners_3"@, decimal(with_matches(after.tickets, 3))),
                    ("winners_4"@, decimal(with_matches(after.tickets, 4))),
                    ("winners_5"@, decimal(with_matches(after.tickets, 5))),
                    ("winners_6"@, decimal(with_all(after.tickets))),
                    ("distributed"@, decimal(prize_total(after.tickets))),
                    ("rollover"@, decimal(next.rounds.last().round.pool)),
                    ("next_round_id"@, decimal(next.rounds.len())),
                ],
            )
        },
{
    if execute_outcome(s, env, info, ExecuteMsg::Draw { round_id }) is Ok {
        assert(in_place(s.rounds, round_id - 1));
        let before = s.rounds[round_id - 1];
        assert(ledger_sound(before, s.config.numbers_per_ticket, s.config.number_max));
        let d = draw_of(s, round_id);
        crate::draw_terms::lemma_draw_counts(before, d);
    }
}

/// The record of a round that was given up tells the refund and what moved on.
pub proof fn law_cancellation_is_recorded(s: StateView, env: Env, info: InfoView, round_id: u64)
    requires
        s.wf(),
    ensures
        execute_outcome(s, env, info, ExecuteMsg::CancelRound { round_id }) matches Ok(
            (next, response),
        ) ==> {
            let after = next.rounds[round_id - 1];
            records(
                response,
                "winsaf/cancel"@,
                seq![
                    ("round_id"@, decimal(round_id as nat)),
                    ("tickets"@, decimal(after.tickets.len())),
                    (
                        "refund_per_ticket"@,
                        decimal(
                            if after.tickets.len() == 0 {
                                0
                            } else {
                                after.tickets[0].prize
                            },
                        ),
                    ),
                    ("rollover"@, decimal(next.rounds.last().round.pool)),
                    ("next_round_id"@, decimal(next.rounds.len())),
                ],
            )
        },
{
    if execute_outcome(s, env, info, ExecuteMsg::CancelRound { round_id }) is Ok {
        assert(in_place(s.rounds, round_id - 1));
    }
}

/// The record of a paid ticket tells whose it is and what was paid.
pub proof fn law_claim_is_recorded(
    s: StateView,
    env: Env,
    info: InfoView,
    round_id: u64,
    ticket_id: String,
)
    requires
        s.rounds[round_id - 1].round.pool <= u128::MAX,
    ensures
        execute_outcome(
            s,
            env,
            info,
            ExecuteMsg::ClaimReward { round_id, ticket_id },
        ) matches Ok((_, response)) ==> records(
            response,
            "winsaf/claim"@,
            seq![
                ("round_id"@, decimal(round_id as nat)),
                ("ticket_id"@, ticket_id@),
                ("owner"@, info.sender),
                ("prize"@, decimal(response.messages[0].amount[0].amount as nat)),
            ],
        ),
{
}

/// The record of a binding tells who referred whom.
pub proof fn law_binding_is_recorded(
    s: StateView,
    env: Env,
    info: InfoView,
    referrer: Option<AddrText>,
    code: Option<String>,
)
    ensures
        execute_outcome(
            s,
            env,
            info,
            ExecuteMsg::BindReferrer { referrer, code },
        ) matches Ok((next, response)) ==> records(
            response,
            "winsaf/bind_referrer"@,
            seq![("referee"@, info.sender), ("referrer"@, next.referrer[info.sender])],
        ),
{
}

/// The record of a registration tells the code and its owner.
pub proof fn law_registration_is_recorded(s: StateView, env: Env, info: InfoView, code: String)
    ensures
        execute_outcome(s, env, info, ExecuteMsg::RegisterCode { code }) matches Ok(
            (next, response),
        ) ==> records(
            response,
            "winsaf/register_code"@,
            seq![("code"@, lowercased(trimmed(code@))), ("owner"@, info.sender)],
        ),
{
}

/// The record of a referrer's claim tells what was paid.
pub proof fn law_referral_claim_is_recorded(s: StateView, env: Env, info: InfoView)
    ensures
        execute_outcome(s, env, info, ExecuteMsg::ClaimReferral {  }) matches Ok((_, response))
            ==> records(
            response,
            "winsaf/claim_referral"@,
            seq![("referrer"@, info.sender), ("amount"@, decimal(pending_of(s, info.sender)))],
        ),
{
}

/// The record of a withdrawal tells what was paid to whom, and what remains.
pub proof fn law_withdrawal_is_recorded(
    s: StateView,
    env: Env,
    info: InfoView,
    to: AddrText,
    amount: u128,
)
    ensures
        execute_outcome(s, env, info, ExecuteMsg::WithdrawTreasury { to, amount }) matches Ok(
            (next, response),
        ) ==> records(
            response,
            "winsaf/withdraw_treasury"@,
            seq![
                ("by"@, info.sender),
                ("to"@, to.verdict->Ok_0@),
                ("amount"@, decimal(amount as nat)),
                ("remaining"@, decimal(next.treasury)),
            ],
        ),
{
}

/// The record of the pause switch tells whether sales are blocked.
pub proof fn law_pause_is_recorded(s: StateView, env: Env, info: InfoView, pause: bool)
    ensures
        execute_outcome(
            s,
            env,
            info,
            if pause {
                ExecuteMsg::Pause {  }
            } else {
                ExecuteMsg::Unpause {  }
            },
        ) matches Ok((_, response)) ==> records(
            response,
            "winsaf/pause"@,
            seq![
                (
                    "paused"@,
                    if pause {
                        "true"@
                    } else {
                        "false"@
                    },
                ),
            ],
        ),
{
}

/// The records of a new contract and of a migration tell the settings and the versions.
pub proof fn law_setup_is_recorded(env: Env, info: InfoView, msg: InstantiateMsg, s: StateView)
    ensures
        instantiate_outcome(env, info, msg) matches Ok((next, response)) ==> records(
            response,
            "winsaf/instantiate"@,
            seq![
                ("admin"@, next.config.admin),
                ("denom"@, next.config.denom),
                ("ticket_price"@, decimal(next.config.ticket_price.amount as nat)),
                ("numbers_per_ticket"@, decimal(next.config.numbers_per_ticket as nat)),
                ("number_max"@, decimal(next.config.number_max as nat)),
                (
                    "randomness_mode"@,
                    match next.config.randomness_mode {
                        RandomnessMode::Drand => "drand"@,
                        RandomnessMode::CommitReveal => "commit_reveal"@,
                        RandomnessMode::Mock => "mock"@,
                    },
                ),
                ("round_id"@, decimal(1)),
            ],
        ),
        migrate_outcome(s) matches Ok((next, response)) ==> records(
            response,
            "winsaf/migrate"@,
            seq![("from_version"@, s.version.version), ("to_version"@, next.version.version)],
        ),
{
}

} // verus!
