//! Giving up a round whose randomness was not delivered.

use crate::constants::CANCEL_GRACE_SECONDS;
use crate::error::{ContractError, ErrorView};
use crate::host::{Env, MessageInfo};
use crate::outcome::{conforms, unless_refused, Outcome};
use crate::response::{Event, EventView, Response, ResponseView};
use crate::rounds::next_ledger;
use crate::state::{
    in_place, rounds_view, tickets_view, Config, LedgerView, RandomnessMode, RandomnessStatus,
    Round, RoundLedger, RoundView, State, StateView, Ticket, TicketView,
};
use crate::status::{status_str, RoundStatus};
use crate::text::{decimal, decimal_text};
use vstd::prelude::*;

verus! {

/// Whether the randomness of a round has been delivered.
pub open spec fn is_delivered(ledger: LedgerView) -> bool {
    ledger.randomness matches Some(request) && request.status == RandomnessStatus::Fulfilled
}

/// Whether someone may give up a round: the admin at any time, everyone once the grace
/// period after the round's closing time is over or, with commit-reveal, once the
/// time for the reveal is over.
pub open spec fn may_cancel(
    s: StateView,
    env: Env,
    sender: Seq<char>,
    ledger: LedgerView,
) -> bool {
    ||| sender == s.config.admin
    ||| env.now() >= ledger.round.closes_at + CANCEL_GRACE_SECONDS
    ||| s.config.randomness_mode == RandomnessMode::CommitReveal && (ledger.randomness matches Some(
        request,
    ) && (request.reveal_deadline matches Some(deadline) && env.now() >= deadline))
}

fn is_cancellable(config: &Config, env: &Env, sender: &String, ledger: &RoundLedger) -> (yes: bool)
    ensures
        forall|s: StateView|
            s.config == config@ ==> yes == #[trigger] may_cancel(s, *env, sender@, ledger@),
{
    if config.is_admin(sender) {
        return true;
    }
    let now: u64 = env.seconds();
    match ledger.round.closes_at.checked_add(CANCEL_GRACE_SECONDS) {
        Some(open_from) => if now >= open_from {
            return true;
        },
        None => {},
    }
    if !matches!(config.randomness_mode, RandomnessMode::CommitReveal) {
        return false;
    }
    match &ledger.randomness {
        Some(request) => match request.reveal_deadline {
            Some(deadline) => now >= deadline,
            None => false,
        },
        None => false,
    }
}

/// Why a round cannot be given up.
pub open spec fn cancel_refusal(
    s: StateView,
    env: Env,
    sender: Seq<char>,
    round_id: u64,
) -> Option<ErrorView> {
    let ledger = s.ledger(round_id);
    if !s.has_round(round_id) {
        Some(ContractError::RoundNotFound { round_id })
    } else if ledger.round.status != RoundStatus::Drawing {
        Some(
            ContractError::UnexpectedStatus {
                round_id,
                status: ledger.round.status.word(),
                expected: RoundStatus::Drawing.word(),
            },
        )
    } else if is_delivered(ledger) {
        Some(ContractError::AlreadyFulfilled { round_id })
    } else if !may_cancel(s, env, sender, ledger) {
        Some(ContractError::Unauthorized { role: "admin"@ })
    } else if round_id == u64::MAX {
        Some(ContractError::InvalidConfig { reason: "round id overflow"@ })
    } else if env.now() + s.config.draw_interval > u64::MAX {
        Some(
            ContractError::InvalidConfig { reason: "draw_interval overflows round close time"@ },
        )
    } else {
        None
    }
}

/// What each ticket of a round is refunded: an equal part of the pool.
pub open spec fn refund_of(ledger: LedgerView) -> nat {
    if ledger.tickets.len() == 0 {
        0
    } else {
        ledger.round.pool / ledger.tickets.len()
    }
}

/// What a given-up round hands to the next one: what does not divide equally among
/// the tickets, where undistributed pools roll over.
pub open spec fn refund_rest(ledger: LedgerView, roll_over: bool) -> nat {
    if roll_over {
        (ledger.round.pool - ledger.tickets.len() * refund_of(ledger)) as nat
    } else {
        0
    }
}

/// The tickets with a refund in place of a prize.
pub open spec fn refunded(tickets: Seq<TicketView>, refund: nat) -> Seq<TicketView> {
    Seq::new(tickets.len(), |i: int| TicketView { prize: refund, ..tickets[i] })
}

/// The ledger of a round that has been given up.
pub open spec fn cancelled(ledger: LedgerView, roll_over: bool) -> LedgerView {
    LedgerView {
        round: RoundView {
            status: RoundStatus::Cancelled,
            pool: (ledger.round.pool - refund_rest(ledger, roll_over)) as nat,
            ..ledger.round
        },
        tickets: refunded(ledger.tickets, refund_of(ledger)),
        ..ledger
    }
}

/// The state after a round has been given up.
pub open spec fn after_cancel(s: StateView, env: Env, round_id: u64) -> StateView {
    let ledger = s.ledger(round_id);
    let roll_over = s.config.rollover_on_no_winner;
    StateView {
        rounds: s.rounds.update(round_id - 1, cancelled(ledger, roll_over)).push(
            next_ledger(s, env, round_id, refund_rest(ledger, roll_over)),
        ),
        ..s
    }
}

/// The event of a round that has been given up.
pub open spec fn cancel_event(s: StateView, round_id: u64) -> EventView {
    let ledger = s.ledger(round_id);
    EventView::named("winsaf/cancel"@).attr("round_id"@, decimal(round_id as nat)).attr(
        "tickets"@,
        decimal(ledger.tickets.len()),
    ).attr("refund_per_ticket"@, decimal(refund_of(ledger))).attr(
        "rollover"@,
        decimal(refund_rest(ledger, s.config.rollover_on_no_winner)),
    ).attr("next_round_id"@, decimal((round_id + 1) as nat))
}

/// What giving up a round leads to.
pub open spec fn cancel_outcome(
    s: StateView,
    env: Env,
    sender: Seq<char>,
    round_id: u64,
) -> Outcome {
    unless_refused(
        cancel_refusal(s, env, sender, round_id),
        after_cancel(s, env, round_id),
        ResponseView::recording(cancel_event(s, round_id)),
    )
}

/// The refunds of a round never exceed its pool.
pub proof fn lemma_refunds_fit(ledger: LedgerView)
    ensures
        ledger.tickets.len() * refund_of(ledger) <= ledger.round.pool,
        refund_of(ledger) <= ledger.round.pool,
{
    let n = ledger.tickets.len();
    let p = ledger.round.pool;
    if n > 0 {
        let q = p / n;
        vstd::arithmetic::div_mod::lemma_fundamental_div_mod(p as int, n as int);
        assert(n * q <= p);
        assert(q <= p) by (nonlinear_arith)
            requires
                n * q <= p,
                n >= 1,
                q >= 0,
        ;
    } else {
        assert(n * refund_of(ledger) == 0) by (nonlinear_arith)
            requires
                n == 0,
        ;
    }
}

/// Writes a refund into every ticket.
fn assign_refunds(tickets: &mut Vec<Ticket>, refund: u128)
    ensures
        tickets_view(final(tickets)@) == refunded(tickets_view(old(tickets)@), refund as nat),
{
    let ghost before = tickets_view(tickets@);
    let ghost target = refunded(before, refund as nat);
    let mut i: usize = 0;
    while i < tickets.len()
        invariant
            i <= tickets.len(),
            tickets@.len() == before.len(),
            target == refunded(before, refund as nat),
            forall|j: int| 0 <= j < i ==> (#[trigger] tickets@[j])@ == target[j],
            forall|j: int| i <= j < tickets@.len() ==> (#[trigger] tickets@[j])@ == before[j],
        decreases tickets.len() - i,
    {
        let ghost old_tickets = tickets@;
        let ticket: &mut Ticket = &mut tickets[i];
        ticket.prize = refund;
        proof {
            assert(tickets@[i as int]@ =~= target[i as int]);
            assert forall|j: int| 0 <= j < tickets@.len() && j != i implies (
            #[trigger] tickets@[j]) == old_tickets[j] by {}
        }
        i = i + 1;
    }
    assert(tickets_view(tickets@) =~= target);
}

/// Turns the pool of a round into refunds; returns what each ticket is refunded and
/// what the next round receives.
fn refund_round(ledger: &mut RoundLedger, roll_over: bool) -> (amounts: (u128, u128))
    ensures
        final(ledger)@ == cancelled(old(ledger)@, roll_over),
        amounts.0 == refund_of(old(ledger)@),
        amounts.1 == refund_rest(old(ledger)@, roll_over),
{
    let ghost before = ledger@;
    let pool: u128 = ledger.round.pool;
    let count: u128 = ledger.tickets.len() as u128;
    assert(count == before.tickets.len());
    proof {
        lemma_refunds_fit(before);
    }
    let refund: u128 = if count == 0 {
        0
    } else {
        pool / count
    };
    assert(count * refund <= pool) by {
        assert(refund == refund_of(before));
    }
    let rest: u128 = if roll_over {
        pool - count * refund
    } else {
        0
    };
    assign_refunds(&mut ledger.tickets, refund);
    ledger.round.status = RoundStatus::Cancelled;
    ledger.round.pool = pool - rest;
    assert(ledger@ =~= cancelled(before, roll_over));
    (refund, rest)
}

/// Gives up a closed round whose randomness was not delivered, turns its pool into
/// refunds and opens the next round.
pub fn execute_cancel_round(
    state: &mut State,
    env: &Env,
    info: &MessageInfo,
    round_id: u64,
) -> (result: Result<Response, ContractError>)
    requires
        old(state).wf(),
    ensures
        final(state).wf(),
        conforms(
            old(state)@,
            final(state)@,
            result,
            cancel_outcome(old(state)@, *env, info@.sender, round_id),
        ),
{
    let ghost s = state@;
    let at: usize = match state.find_round(round_id) {
        Some(at) => at,
        None => return Err(ContractError::RoundNotFound { round_id }),
    };
    assert(in_place(s.rounds, at as int));
    assert(s.ledger(round_id) == state.rounds@[at as int]@);
    let status = state.rounds[at].round.status;
    if status != RoundStatus::Drawing {
        return Err(
            ContractError::UnexpectedStatus {
                round_id,
                status: status_str(&status),
                expected: status_str(&RoundStatus::Drawing),
            },
        );
    }
    match &state.rounds[at].randomness {
        Some(request) => if matches!(request.status, RandomnessStatus::Fulfilled) {
            return Err(ContractError::AlreadyFulfilled { round_id });
        },
        None => {},
    }
    assert(!is_delivered(s.ledger(round_id)));
    let allowed: bool = is_cancellable(&state.config, env, &info.sender, &state.rounds[at]);
    assert(allowed == may_cancel(s, *env, info@.sender, s.ledger(round_id)));
    if !allowed {
        return Err(ContractError::unauthorized("admin"));
    }
    let next_id: u64 = match round_id.checked_add(1) {
        Some(next_id) => next_id,
        None => return Err(ContractError::invalid_config("round id overflow")),
    };
    let opens_at: u64 = env.seconds();
    let closes_at: u64 = match opens_at.checked_add(state.config.draw_interval) {
        Some(closes_at) => closes_at,
        None => return Err(
            ContractError::invalid_config("draw_interval overflows round close time"),
        ),
    };
    let roll_over = state.config.rollover_on_no_winner;
    let count: usize = state.rounds[at].tickets.len();
    let ledger: &mut RoundLedger = &mut state.rounds[at];
    let (refund, rest) = refund_round(ledger, roll_over);
    let rolled_from: Option<u64> = if rest == 0 {
        None
    } else {
        Some(round_id)
    };
    let ghost rounds = state.rounds@;
    proof {
        assert(rounds_view(rounds) =~= s.rounds.update(
            at as int,
            cancelled(s.ledger(round_id), roll_over),
        ));
    }
    let next = RoundLedger {
        round: Round::new_open(next_id, opens_at, closes_at, rest, rolled_from),
        tickets: Vec::new(),
        randomness: None,
    };
    state.rounds.push(next);
    proof {
        assert(tickets_view(next.tickets@) =~= Seq::<TicketView>::empty());
        assert(next@ =~= next_ledger(s, *env, round_id, rest as nat));
        assert(rounds_view(state.rounds@) =~= rounds_view(rounds).push(next@));
        assert(state@ =~= after_cancel(s, *env, round_id));
        assert forall|i: int| 0 <= i < state@.rounds.len() implies #[trigger] in_place(
            state@.rounds,
            i,
        ) by {
            if i < s.rounds.len() {
                assert(in_place(s.rounds, i));
            }
        }
    }
    let event = Event::new("winsaf/cancel").attr("round_id", decimal_text(round_id as u128)).attr(
        "tickets",
        decimal_text(count as u128),
    ).attr("refund_per_ticket", decimal_text(refund)).attr("rollover", decimal_text(rest)).attr(
        "next_round_id",
        decimal_text(next_id as u128),
    );
    Ok(Response::recording(event))
}

} // verus!
