//! What players can rely on in the course of a round, request by request.

use crate::beacon::{first_round_after, law_first_round_after_is_first};
use crate::cancel::{after_cancel, cancel_refusal, lemma_refunds_fit};
use crate::contract::execute_outcome;
use crate::error::{ContractError, ErrorView};
use crate::host::{Env, InfoView};
use crate::money::Coin;
use crate::msg::ExecuteMsg;
use crate::response::{ResponseView, SendView};
use crate::rounds::draw_refusal;
use crate::state::{
    in_place, LedgerView, RandomnessMode, RandomnessStatus, RequestView, RoundView, StateView,
    TicketView,
};
use crate::status::RoundStatus;
use crate::text::decimal;
use crate::ticket_ids::{lemma_named_ticket, names_ticket, ticket_name};
use vstd::prelude::*;

verus! {

/// The block time in whole seconds, rounded down.
pub open spec fn seconds_of(env: Env) -> int {
    env.time_nanos as int / 1_000_000_000
}

/// Whether a ledger is that of a round that has just opened, for as long as the
/// configuration says, with nothing in it but what an earlier round left.
pub open spec fn is_fresh(ledger: LedgerView, id: int, now: int, closes: int) -> bool {
    let r = ledger.round;
    &&& r.id == id
    &&& r.status == RoundStatus::Open
    &&& r.opens_at == now
    &&& r.closes_at == closes
    &&& r.ticket_count == 0
    &&& r.player_count == 0
    &&& r.winning_numbers is None
    &&& r.prize_tiers.tier_3 == 0 && r.prize_tiers.tier_4 == 0 && r.prize_tiers.tier_5 == 0
        && r.prize_tiers.tier_6 == 0
    &&& r.winning_tickets == 0
    &&& r.dry_streak_after == 0
    &&& r.ticket_entropy.len() == 32
    &&& forall|i: int| 0 <= i < 32 ==> #[trigger] r.ticket_entropy[i] == 0
    &&& r.pool == 0 <==> r.rolled_over_from is None
    &&& ledger.tickets.len() == 0
    &&& ledger.randomness is None
}

/// A draw or a cancellation that is accepted opens the next round at once, for the whole
/// draw interval: it cannot be closed before, and then it can.
pub proof fn law_next_round_is_open_for_the_interval(
    s: StateView,
    env: Env,
    info: InfoView,
    msg: ExecuteMsg,
    later: Env,
    closer: InfoView,
)
    requires
        s.wf(),
        msg is Draw || msg is CancelRound,
    ensures
        execute_outcome(s, env, info, msg) matches Ok((next, _)) ==> {
            let last = next.rounds.last();
            let closes = seconds_of(env) + s.config.draw_interval;
            let close = execute_outcome(next, later, closer, ExecuteMsg::CloseRound {  });
            &&& next.rounds.len() == s.rounds.len() + 1
            &&& is_fresh(last, s.rounds.len() as int + 1, seconds_of(env), closes)
            &&& close is Ok <==> seconds_of(later) >= closes
            &&& close is Err ==> close == Err::<(StateView, ResponseView), ErrorView>(
                ContractError::RoundNotClosed {
                    round_id: (s.rounds.len() + 1) as u64,
                    closes_at: closes as u64,
                    now: seconds_of(later) as u64,
                },
            )
        },
{
    match msg {
        ExecuteMsg::Draw { round_id } => {
            if draw_refusal(s, env, round_id) is None {
                assert(in_place(s.rounds, round_id - 1));
            }
        },
        ExecuteMsg::CancelRound { round_id } => {
            if cancel_refusal(s, env, info.sender, round_id) is None {
                assert(in_place(s.rounds, round_id - 1));
            }
        },
        _ => {},
    }
}

/// Everyone can close the current round once it has been open for its time, and nobody
/// before. Its tickets stay as they are; it waits for randomness, of which nothing is
/// there yet.
pub proof fn law_round_closes_in_time(s: StateView, env: Env, info: InfoView)
    requires
        s.wf(),
    ensures
        ({
            let outcome = execute_outcome(s, env, info, ExecuteMsg::CloseRound {  });
            let before = s.rounds.last();
            let n = s.rounds.len() as int;
            if before.round.status != RoundStatus::Open {
                outcome == Err::<(StateView, ResponseView), ErrorView>(
                    ContractError::UnexpectedStatus {
                        round_id: n as u64,
                        status: "drawing"@,
                        expected: "open"@,
                    },
                )
            } else if seconds_of(env) < before.round.closes_at {
                outcome == Err::<(StateView, ResponseView), ErrorView>(
                    ContractError::RoundNotClosed {
                        round_id: n as u64,
                        closes_at: before.round.closes_at,
                        now: seconds_of(env) as u64,
                    },
                )
            } else {
                outcome matches Ok((next, response)) && {
                    let after = next.rounds.last();
                    &&& response.messages.len() == 0
                    &&& next == (StateView { rounds: s.rounds.update(n - 1, after), ..s })
                    &&& after.round == (RoundView { status: RoundStatus::Drawing, ..before.round })
                    &&& after.tickets == before.tickets
                    &&& after.randomness matches Some(request) && request == (RequestView {
                        round_id: n as u64,
                        beacon_round: request.beacon_round,
                        status: RandomnessStatus::Pending,
                        commitment: None,
                        randomness: None,
                        signature: None,
                        committer: None,
                        commit_height: None,
                        reveal_deadline: None,
                    })
                    &&& s.config.randomness_mode != RandomnessMode::Drand
                        ==> after.randomness->0.beacon_round == n
                }
            }
        }),
{
    assert(in_place(s.rounds, s.rounds.len() - 1));
}

/// In drand mode a closed round waits for the first beacon round that is published after
/// its closing time, or for the last one that has a number where none is. Where the
/// configuration has no clock of the beacon, it is that of quicknet.
pub proof fn law_close_names_the_first_beacon_round(s: StateView, env: Env, info: InfoView)
    requires
        s.wf(),
        s.config.randomness_mode == RandomnessMode::Drand,
    ensures
        execute_outcome(s, env, info, ExecuteMsg::CloseRound {  }) matches Ok((next, _)) ==> {
            let b = next.rounds.last().randomness->0.beacon_round as int;
            let genesis = if s.config.drand_genesis_time == 0 {
                1_692_803_367
            } else {
                s.config.drand_genesis_time as int
            };
            let period = if s.config.drand_period == 0 {
                3
            } else {
                s.config.drand_period as int
            };
            let closes_at = s.rounds.last().round.closes_at as int;
            &&& b >= 1
            &&& genesis + (b - 1) * period > closes_at || b == u64::MAX
            &&& forall|earlier: int|
                1 <= earlier < b ==> genesis + #[trigger] ((earlier - 1) * period) <= closes_at
        },
{
    assert(in_place(s.rounds, s.rounds.len() - 1));
    let genesis: u64 = if s.config.drand_genesis_time == 0 {
        1_692_803_367
    } else {
        s.config.drand_genesis_time
    };
    let period: u64 = if s.config.drand_period == 0 {
        3
    } else {
        s.config.drand_period
    };
    let closes_at = s.rounds.last().round.closes_at;
    let first = first_round_after(genesis, period, closes_at) as int;
    law_first_round_after_is_first(genesis, period, closes_at, 1);
    assert forall|earlier: int| 1 <= earlier < first implies genesis + #[trigger] ((earlier - 1) * (
    period as int)) <= closes_at by {
        law_first_round_after_is_first(genesis, period, closes_at, earlier);
    }
}

/// Whether someone may give up a round without being the admin.
pub open spec fn is_overdue(s: StateView, env: Env, ledger: LedgerView) -> bool {
    ||| seconds_of(env) >= ledger.round.closes_at + 24 * 60 * 60
    ||| s.config.randomness_mode == RandomnessMode::CommitReveal && (ledger.randomness matches Some(
        request,
    ) && (request.reveal_deadline matches Some(deadline) && seconds_of(env) >= deadline))
}

/// A closed round without randomness can be given up by the admin, and by everyone a day
/// after its closing time or after a missed reveal. Every ticket is refunded an equal
/// part of the pool, and what does not divide stays or moves on as any leftover.
pub proof fn law_cancellation_refunds_equally(
    s: StateView,
    env: Env,
    info: InfoView,
    round_id: u64,
)
    requires
        s.wf(),
        1 <= round_id <= s.rounds.len(),
        round_id < u64::MAX,
        seconds_of(env) + s.config.draw_interval <= u64::MAX,
        s.rounds[round_id - 1].round.status == RoundStatus::Drawing,
        s.rounds[round_id - 1].randomness matches Some(request) ==> request.status
            != RandomnessStatus::Fulfilled,
    ensures
        ({
            let outcome = execute_outcome(s, env, info, ExecuteMsg::CancelRound { round_id });
            let before = s.rounds[round_id - 1];
            let n = before.tickets.len();
            if info.sender != s.config.admin && !is_overdue(s, env, before) {
                outcome == Err::<(StateView, ResponseView), ErrorView>(
                    ContractError::Unauthorized { role: "admin"@ },
                )
            } else {
                outcome matches Ok((next, response)) && {
                    let after = next.rounds[round_id - 1];
                    let opened = next.rounds[round_id as int];
                    &&& response.messages.len() == 0
                    &&& next == (StateView {
                        rounds: s.rounds.update(round_id - 1, after).push(opened),
                        ..s
                    })
                    &&& after.round == (RoundView {
                        status: RoundStatus::Cancelled,
                        pool: after.round.pool,
                        ..before.round
                    })
                    &&& after.randomness == before.randomness
                    &&& after.round.pool + opened.round.pool == before.round.pool
                    &&& after.tickets.len() == n
                    &&& forall|i: int|
                        0 <= i < n ==> {
                            let t = #[trigger] after.tickets[i];
                            &&& t == (TicketView { prize: t.prize, ..before.tickets[i] })
                            &&& n * t.prize <= before.round.pool < n * t.prize + n
                            &&& opened.round.pool == if s.config.rollover_on_no_winner {
                                before.round.pool - n * t.prize
                            } else {
                                0
                            }
                        }
                    &&& n == 0 ==> opened.round.pool == if s.config.rollover_on_no_winner {
                        before.round.pool
                    } else {
                        0
                    }
                    &&& opened.round.rolled_over_from == if opened.round.pool == 0 {
                        None
                    } else {
                        Some(round_id)
                    }
                }
            }
        }),
{
    let before = s.rounds[round_id - 1];
    let n = before.tickets.len();
    assert(in_place(s.rounds, round_id - 1));
    lemma_refunds_fit(before);
    if n > 0 {
        vstd::arithmetic::div_mod::lemma_fundamental_div_mod(before.round.pool as int, n as int);
    }
    if cancel_refusal(s, env, info.sender, round_id) is None {
        let next = after_cancel(s, env, round_id);
        assert(next.rounds[round_id as int] == next.rounds.last());
        assert forall|i: int| 0 <= i < n implies {
            let t = #[trigger] next.rounds[round_id - 1].tickets[i];
            n * t.prize <= before.round.pool < n * t.prize + n
        } by {
            assert(next.rounds[round_id - 1].tickets[i].prize == before.round.pool / n);
        }
    }
}

/// A round is not given up where the next one could not be numbered or closed.
pub proof fn law_cancellation_needs_a_next_round(
    s: StateView,
    env: Env,
    info: InfoView,
    round_id: u64,
)
    requires
        1 <= round_id <= s.rounds.len(),
        s.rounds[round_id - 1].round.status == RoundStatus::Drawing,
        s.rounds[round_id - 1].randomness matches Some(request) ==> request.status
            != RandomnessStatus::Fulfilled,
        info.sender == s.config.admin || is_overdue(s, env, s.rounds[round_id - 1]),
        round_id == u64::MAX || seconds_of(env) + s.config.draw_interval > u64::MAX,
    ensures
        execute_outcome(s, env, info, ExecuteMsg::CancelRound { round_id }) == Err::<
            (StateView, ResponseView),
            ErrorView,
        >(
            ContractError::InvalidConfig {
                reason: if round_id == u64::MAX {
                    "round id overflow"@
                } else {
                    "draw_interval overflows round close time"@
                },
            },
        ),
{
}

/// Only a closed round whose randomness was not delivered can be given up.
pub proof fn law_cancellation_is_for_stuck_rounds(
    s: StateView,
    env: Env,
    info: InfoView,
    round_id: u64,
)
    ensures
        ({
            let outcome = execute_outcome(s, env, info, ExecuteMsg::CancelRound { round_id });
            let before = s.rounds[round_id - 1];
            &&& !(1 <= round_id <= s.rounds.len()) ==> outcome == Err::<
                (StateView, ResponseView),
                ErrorView,
            >(ContractError::RoundNotFound { round_id })
            &&& 1 <= round_id <= s.rounds.len() && before.round.status != RoundStatus::Drawing
                ==> outcome == Err::<(StateView, ResponseView), ErrorView>(
                ContractError::UnexpectedStatus {
                    round_id,
                    status: before.round.status.word(),
                    expected: "drawing"@,
                },
            )
            &&& 1 <= round_id <= s.rounds.len() && before.round.status == RoundStatus::Drawing && (
            before.randomness matches Some(request) && request.status
                == RandomnessStatus::Fulfilled) ==> outcome == Err::<
                (StateView, ResponseView),
                ErrorView,
            >(ContractError::AlreadyFulfilled { round_id })
        }),
{
}

/// The owner of a ticket with a prize or a refund is paid it once and in full, out of
/// the pool of its round; nobody else is, and nothing else changes.
pub proof fn law_claim_pays_the_owner(
    s: StateView,
    env: Env,
    info: InfoView,
    round_id: u64,
    ticket_id: String,
    i: int,
)
    requires
        1 <= round_id <= s.rounds.len(),
        0 <= i < s.rounds[round_id - 1].tickets.len(),
        ticket_id@ == ticket_name(i as nat),
    ensures
        ({
            let outcome = execute_outcome(
                s,
                env,
                info,
                ExecuteMsg::ClaimReward { round_id, ticket_id },
            );
            let before = s.rounds[round_id - 1];
            let t = before.tickets[i];
            if t.owner != info.sender {
                outcome == Err::<(StateView, ResponseView), ErrorView>(
                    ContractError::Unauthorized { role: "ticket owner"@ },
                )
            } else if t.prize == 0 {
                outcome == Err::<(StateView, ResponseView), ErrorView>(
                    ContractError::NoPrize { round_id, ticket_id: ticket_id@ },
                )
            } else if t.claimed {
                outcome == Err::<(StateView, ResponseView), ErrorView>(
                    ContractError::AlreadyClaimed { round_id, ticket_id: ticket_id@ },
                )
            } else if t.prize > before.round.pool {
                outcome == Err::<(StateView, ResponseView), ErrorView>(
                    ContractError::PoolUnderflow {
                        round_id,
                        pool: decimal(before.round.pool),
                        requested: decimal(t.prize),
                    },
                )
            } else {
                outcome matches Ok((next, response)) && {
                    let after = next.rounds[round_id - 1];
                    &&& response.messages == seq![
                        SendView {
                            to_address: t.owner,
                            amount: seq![Coin { denom: s.config.denom, amount: t.prize as u128 }],
                        },
                    ]
                    &&& next == (StateView { rounds: s.rounds.update(round_id - 1, after), ..s })
                    &&& after.round == (RoundView {
                        pool: (before.round.pool - t.prize) as nat,
                        ..before.round
                    })
                    &&& after.randomness == before.randomness
                    &&& after.tickets == before.tickets.update(
                        i,
                        TicketView { claimed: true, ..t },
                    )
                }
            }
        }),
{
    let n = s.rounds[round_id - 1].tickets.len();
    assert(names_ticket(ticket_id@, n, i));
    lemma_named_ticket(ticket_id@, n, i);
}

/// A claim names a round and a ticket that exist.
pub proof fn law_claim_names_a_ticket(
    s: StateView,
    env: Env,
    info: InfoView,
    round_id: u64,
    ticket_id: String,
)
    ensures
        ({
            let outcome = execute_outcome(
                s,
                env,
                info,
                ExecuteMsg::ClaimReward { round_id, ticket_id },
            );
            &&& !(1 <= round_id <= s.rounds.len()) ==> outcome == Err::<
                (StateView, ResponseView),
                ErrorView,
            >(ContractError::RoundNotFound { round_id })
            &&& 1 <= round_id <= s.rounds.len() && (forall|i: int|
                0 <= i < s.rounds[round_id - 1].tickets.len() ==> #[trigger] ticket_name(i as nat)
                    != ticket_id@) ==> outcome == Err::<(StateView, ResponseView), ErrorView>(
                ContractError::TicketNotFound { round_id, ticket_id: ticket_id@ },
            )
        }),
{
}

} // verus!
