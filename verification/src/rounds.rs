//! The life of a round after its sales: close, draw and claims.

use crate::admin::with_beacon_clock;
use crate::beacon::{find_round_after, first_round_after};
use crate::constants::{DRAND_QUICKNET_GENESIS, DRAND_QUICKNET_PERIOD, MIN_PLAYERS_FOR_DRY_STREAK};
use crate::error::{ContractError, ErrorView};
use crate::host::{Env, MessageInfo};
use crate::money::Coin;
use crate::outcome::{conforms, unless_refused, Outcome};
use crate::picks::{count_matches, derive_winning_numbers, matches_of, winning_numbers};
use crate::prizes::{
    compute_drawn_prizes, drawn_prizes, has_lower_winner, law_prizes_never_exceed_pool,
    lemma_paid_count_bounded, lemma_tally_bounded, paid_count, payout_sum, tally, PrizeTiers,
    Tally, TierCounts,
};
use crate::referral::count_up;
use crate::response::{Event, EventView, Response, ResponseView};
use crate::state::{
    in_place, rounds_view, tickets_view, Config, ConfigView, LedgerView, RandomnessMode,
    RandomnessRequest, RandomnessStatus, RequestView, Round, RoundLedger, RoundView, State,
    StateView, Ticket, TicketView,
};
use crate::status::{status_str, RoundStatus};
use crate::text::{copy_bytes, csv, decimal, decimal_text, join3, numbers_csv};
use crate::ticket_ids::{find_ticket, named_ticket};
use vstd::prelude::*;

verus! {

/// Why the current round cannot be closed.
pub open spec fn close_refusal(s: StateView, env: Env) -> Option<ErrorView> {
    let round = s.rounds.last().round;
    if round.status != RoundStatus::Open {
        Some(
            ContractError::UnexpectedStatus {
                round_id: s.current(),
                status: round.status.word(),
                expected: RoundStatus::Open.word(),
            },
        )
    } else if env.now() < round.closes_at {
        Some(
            ContractError::RoundNotClosed {
                round_id: s.current(),
                closes_at: round.closes_at,
                now: env.now(),
            },
        )
    } else {
        None
    }
}

/// The beacon round that a round has to be drawn from: in drand mode the first one
/// that the beacon publishes after the round's closing time, so that nobody can have
/// known it while tickets were on sale until then; otherwise the round's own number.
pub open spec fn beacon_round_of(config: ConfigView, round: RoundView) -> u64 {
    let c = with_beacon_clock(config);
    if config.randomness_mode == RandomnessMode::Drand {
        let first = first_round_after(c.drand_genesis_time, c.drand_period, round.closes_at);
        if first <= u64::MAX {
            first as u64
        } else {
            u64::MAX
        }
    } else {
        round.id
    }
}

fn find_beacon_round(config: &Config, round: &Round) -> (beacon_round: u64)
    ensures
        beacon_round == beacon_round_of(config@, round@),
{
    if !matches!(config.randomness_mode, RandomnessMode::Drand) {
        return round.id;
    }
    let genesis: u64 = if config.drand_genesis_time == 0 {
        DRAND_QUICKNET_GENESIS
    } else {
        config.drand_genesis_time
    };
    let period: u64 = if config.drand_period == 0 {
        DRAND_QUICKNET_PERIOD
    } else {
        config.drand_period
    };
    find_round_after(genesis, period, round.closes_at)
}

/// The ledger of a round that has been closed.
pub open spec fn closed(ledger: LedgerView, beacon_round: u64) -> LedgerView {
    LedgerView {
        round: RoundView { status: RoundStatus::Drawing, ..ledger.round },
        randomness: Some(RequestView::pending(ledger.round.id, beacon_round)),
        ..ledger
    }
}

/// What closing the current round leads to.
pub open spec fn close_outcome(s: StateView, env: Env) -> Outcome {
    let round = s.rounds.last().round;
    unless_refused(
        close_refusal(s, env),
        s.with_ledger(
            s.current(),
            closed(s.rounds.last(), beacon_round_of(s.config, s.rounds.last().round)),
        ),
        ResponseView::recording(
            EventView::named("winsaf/close"@).attr("round_id"@, decimal(s.current() as nat)).attr(
                "ticket_count"@,
                decimal(round.ticket_count as nat),
            ).attr("pool"@, decimal(round.pool)),
        ),
    )
}

/// Closes the current round, once its time has passed, and makes room for its
/// randomness.
pub fn execute_close_round(state: &mut State, env: &Env) -> (result: Result<
    Response,
    ContractError,
>)
    requires
        old(state).wf(),
    ensures
        final(state).wf(),
        conforms(old(state)@, final(state)@, result, close_outcome(old(state)@, *env)),
{
    let ghost s = state@;
    let at: usize = state.rounds.len() - 1;
    let round_id: u64 = state.rounds.len() as u64;
    assert(in_place(s.rounds, at as int));
    assert(s.rounds.last() == state.rounds@[at as int]@);
    let status = state.rounds[at].round.status;
    if !status.accepts_tickets() {
        return Err(
            ContractError::UnexpectedStatus {
                round_id,
                status: status_str(&status),
                expected: status_str(&RoundStatus::Open),
            },
        );
    }
    let now: u64 = env.seconds();
    let closes_at: u64 = state.rounds[at].round.closes_at;
    if now < closes_at {
        return Err(ContractError::RoundNotClosed { round_id, closes_at, now });
    }
    let ticket_count: u64 = state.rounds[at].round.ticket_count;
    let pool: u128 = state.rounds[at].round.pool;
    let beacon_round: u64 = find_beacon_round(&state.config, &state.rounds[at].round);
    let ledger: &mut RoundLedger = &mut state.rounds[at];
    ledger.round.status = RoundStatus::Drawing;
    ledger.randomness = Some(RandomnessRequest::pending(round_id, beacon_round));
    let ghost after = ledger@;
    proof {
        assert(after =~= closed(s.rounds.last(), beacon_round));
        assert(rounds_view(state.rounds@) =~= s.rounds.update(at as int, after));
        assert forall|i: int| 0 <= i < state@.rounds.len() implies #[trigger] in_place(
            state@.rounds,
            i,
        ) by {
            assert(in_place(s.rounds, i));
        }
    }
    let event = Event::new("winsaf/close").attr("round_id", decimal_text(round_id as u128)).attr(
        "ticket_count",
        decimal_text(ticket_count as u128),
    ).attr("pool", decimal_text(pool));
    Ok(Response::recording(event))
}

/// How many winning numbers each ticket has.
pub open spec fn match_counts(tickets: Seq<TicketView>, winning: Seq<u8>) -> Seq<u8> {
    Seq::new(tickets.len(), |i: int| matches_of(tickets[i].numbers, winning))
}

/// The tickets with their match counts and prizes.
pub open spec fn prized(tickets: Seq<TicketView>, matches: Seq<u8>, tiers: PrizeTiers) -> Seq<
    TicketView,
> {
    Seq::new(
        tickets.len(),
        |i: int|
            TicketView { matches: matches[i], prize: tiers.payout(matches[i]), ..tickets[i] },
    )
}

/// The randomness that a draw of the round consumes.
pub open spec fn drawable(ledger: LedgerView) -> Option<Seq<u8>> {
    match ledger.randomness {
        Some(request) => if request.status == RandomnessStatus::Fulfilled {
            request.randomness
        } else {
            None
        },
        None => None,
    }
}

/// Why a round cannot be drawn.
pub open spec fn draw_refusal(s: StateView, env: Env, round_id: u64) -> Option<ErrorView> {
    let ledger = s.ledger(round_id);
    if !s.has_round(round_id) {
        Some(ContractError::RoundNotFound { round_id })
    } else if ledger.round.status != RoundStatus::Drawing {
        Some(
            ContractError::UnexpectedStatus {
                round_id,
                status: ledger.round.status.word(),
                expected: RoundStatus::Drawing.word(),
            },
        )
    } else if ledger.randomness is None {
        Some(ContractError::NoCommitment { round_id })
    } else if drawable(ledger) is None {
        Some(
            ContractError::VerificationFailed {
                reason: "randomness for round "@ + decimal(round_id as nat)
                    + " not yet fulfilled"@,
            },
        )
    } else if round_id == u64::MAX {
        Some(ContractError::InvalidConfig { reason: "round id overflow"@ })
    } else if env.now() + s.config.draw_interval > u64::MAX {
        Some(
            ContractError::InvalidConfig { reason: "draw_interval overflows round close time"@ },
        )
    } else {
        None
    }
}

/// What a draw finds out, given the winning numbers.
pub struct Drawing {
    pub winning: Seq<u8>,
    pub matches: Seq<u8>,
    pub counts: Tally,
    /// Whether the jackpot share had to go to the best tier present.
    pub forced: bool,
    pub tiers: PrizeTiers,
    /// What the winning tickets receive together.
    pub distributed: nat,
    /// What the next round starts with.
    pub rollover: nat,
    /// The dry streak after the draw.
    pub streak: u64,
}

/// The rules of a draw.
pub struct DrawRules {
    pub roll_over: bool,
    pub max_dry_rounds: u64,
    /// The dry streak before the draw.
    pub streak: u64,
}

/// Whether the jackpot share has to go to the best tier present: it has waited for as
/// many rounds as it may, the round has players enough, nobody won the jackpot, and
/// someone won below it.
pub open spec fn must_roll_down(rules: DrawRules, players: u64, counts: Tally) -> bool {
    &&& rules.max_dry_rounds > 0
    &&& rules.streak >= rules.max_dry_rounds
    &&& players >= MIN_PLAYERS_FOR_DRY_STREAK
    &&& counts.six == 0
    &&& has_lower_winner(counts)
}

/// The dry streak after a draw: a round with too few players leaves it alone, a paid
/// jackpot share ends it, and any other round prolongs it.
pub open spec fn streak_after(rules: DrawRules, players: u64, counts: Tally) -> u64 {
    if players < MIN_PLAYERS_FOR_DRY_STREAK {
        rules.streak
    } else if counts.six > 0 || must_roll_down(rules, players, counts) {
        0
    } else {
        count_up(rules.streak)
    }
}

/// What drawing these numbers finds out about a round.
pub open spec fn drawing(ledger: LedgerView, winning: Seq<u8>, rules: DrawRules) -> Drawing {
    let matches = match_counts(ledger.tickets, winning);
    let counts = tally(matches);
    let forced = must_roll_down(rules, ledger.round.player_count, counts);
    let tiers = drawn_prizes(ledger.round.pool, counts, forced);
    let distributed = payout_sum(tiers, matches);
    Drawing {
        winning,
        matches,
        counts,
        forced,
        tiers,
        distributed,
        rollover: if rules.roll_over && counts.six == 0 {
            (ledger.round.pool - distributed) as nat
        } else {
            0
        },
        streak: streak_after(rules, ledger.round.player_count, counts),
    }
}

/// The rules by which a round is drawn.
pub open spec fn rules_of(s: StateView) -> DrawRules {
    DrawRules {
        roll_over: s.config.rollover_on_no_winner,
        max_dry_rounds: s.config.max_dry_rounds,
        streak: s.dry_streak,
    }
}

/// The draw of a round whose randomness is there.
pub open spec fn draw_of(s: StateView, round_id: u64) -> Drawing {
    let ledger = s.ledger(round_id);
    drawing(
        ledger,
        winning_numbers(
            drawable(ledger)->0,
            s.config.numbers_per_ticket,
            s.config.number_max,
        ),
        rules_of(s),
    )
}

/// The ledger of a round that has been drawn. What no ticket won and does not move
/// into the next round stays in its pool.
pub open spec fn settled(ledger: LedgerView, d: Drawing) -> LedgerView {
    LedgerView {
        round: RoundView {
            status: RoundStatus::Settled,
            pool: (ledger.round.pool - d.rollover) as nat,
            winning_numbers: Some(d.winning),
            prize_tiers: d.tiers,
            winning_tickets: paid_count(d.tiers, d.matches) as u64,
            dry_streak_after: d.streak,
            ..ledger.round
        },
        tickets: prized(ledger.tickets, d.matches, d.tiers),
        ..ledger
    }
}

/// The ledger of the round that follows a finished one.
pub open spec fn next_ledger(s: StateView, env: Env, round_id: u64, rollover: nat) -> LedgerView {
    LedgerView {
        round: RoundView::opened(
            (round_id + 1) as u64,
            env.now(),
            (env.now() + s.config.draw_interval) as u64,
            rollover,
            if rollover == 0 {
                None
            } else {
                Some(round_id)
            },
        ),
        tickets: Seq::empty(),
        randomness: None,
    }
}

/// The state after a draw.
pub open spec fn drawn(s: StateView, env: Env, round_id: u64) -> StateView {
    let d = draw_of(s, round_id);
    StateView {
        rounds: s.rounds.update(round_id - 1, settled(s.ledger(round_id), d)).push(
            next_ledger(s, env, round_id, d.rollover),
        ),
        dry_streak: d.streak,
        ..s
    }
}

/// The event of a draw.
pub open spec fn draw_event(round_id: u64, d: Drawing) -> EventView {
    EventView::named("winsaf/draw"@).attr("round_id"@, decimal(round_id as nat)).attr(
        "winning_numbers"@,
        csv(d.winning),
    ).attr("winners_3"@, decimal(d.counts.three)).attr("winners_4"@, decimal(d.counts.four)).attr(
        "winners_5"@,
        decimal(d.counts.five),
    ).attr("winners_6"@, decimal(d.counts.six)).attr("distributed"@, decimal(d.distributed)).attr(
        "rollover"@,
        decimal(d.rollover),
    ).attr("next_round_id"@, decimal((round_id + 1) as nat))
}

/// What a draw leads to.
pub open spec fn draw_outcome(s: StateView, env: Env, round_id: u64) -> Outcome {
    unless_refused(
        draw_refusal(s, env, round_id),
        drawn(s, env, round_id),
        ResponseView::recording(draw_event(round_id, draw_of(s, round_id))),
    )
}

/// Counts the winners of each tier.
fn count_winners(tickets: &Vec<Ticket>, winning: &Vec<u8>) -> (found: (Vec<u8>, TierCounts))
    ensures
        found.0@ == match_counts(tickets_view(tickets@), winning@),
        found.1@ == tally(found.0@),
{
    let ghost shown = tickets_view(tickets@);
    let ghost all = match_counts(shown, winning@);
    let mut matches: Vec<u8> = Vec::new();
    let mut counts = TierCounts::zero();
    let mut i: usize = 0;
    assert(all.take(0) =~= Seq::<u8>::empty());
    while i < tickets.len()
        invariant
            i <= tickets.len(),
            shown == tickets_view(tickets@),
            all == match_counts(shown, winning@),
            matches@ == all.take(i as int),
            counts@ == tally(all.take(i as int)),
        decreases tickets.len() - i,
    {
        let m = count_matches(tickets[i].numbers.as_slice(), winning.as_slice());
        proof {
            assert(m == all[i as int]);
            let head = all.take(i + 1);
            assert(head.drop_last() =~= all.take(i as int));
            lemma_tally_bounded(head);
            assert(head =~= matches@.push(m));
        }
        counts.add(m);
        matches.push(m);
        i = i + 1;
    }
    assert(all.take(i as int) =~= all);
    (matches, counts)
}

/// Writes match counts and prizes into the tickets; returns what they receive
/// together and how many receive something.
fn assign_prizes(
    tickets: &mut Vec<Ticket>,
    matches: &Vec<u8>,
    tiers: &PrizeTiers,
    Ghost(pool): Ghost<u128>,
) -> (assigned: (u128, u64))
    requires
        matches@.len() == old(tickets)@.len(),
        payout_sum(*tiers, matches@) <= pool,
    ensures
        tickets_view(final(tickets)@) == prized(tickets_view(old(tickets)@), matches@, *tiers),
        assigned.0 == payout_sum(*tiers, matches@),
        assigned.1 == paid_count(*tiers, matches@),
{
    let ghost before = tickets_view(tickets@);
    let ghost target = prized(before, matches@, *tiers);
    let mut distributed: u128 = 0;
    let mut winners: u64 = 0;
    let mut i: usize = 0;
    proof {
        assert(matches@.take(0) =~= Seq::<u8>::empty());
        lemma_paid_count_bounded(*tiers, matches@);
    }
    while i < tickets.len()
        invariant
            i <= tickets.len(),
            tickets@.len() == matches@.len(),
            before.len() == matches@.len(),
            target == prized(before, matches@, *tiers),
            payout_sum(*tiers, matches@) <= pool,
            distributed == payout_sum(*tiers, matches@.take(i as int)),
            winners == paid_count(*tiers, matches@.take(i as int)),
            forall|j: int| 0 <= j < i ==> (#[trigger] tickets@[j])@ == target[j],
            forall|j: int| i <= j < tickets@.len() ==> (#[trigger] tickets@[j])@ == before[j],
        decreases tickets.len() - i,
    {
        let m = matches[i];
        let prize: u128 = tiers.payout_for_matches(m);
        proof {
            let head = matches@.take(i + 1);
            assert(head.drop_last() =~= matches@.take(i as int));
            assert(head.last() == m);
            lemma_payout_sum_prefix(*tiers, matches@, i + 1);
            lemma_paid_count_bounded(*tiers, head);
        }
        if prize != 0 {
            winners = winners + 1;
        }
        distributed = distributed + prize;
        let ghost old_tickets = tickets@;
        let ticket: &mut Ticket = &mut tickets[i];
        ticket.matches = m;
        ticket.prize = prize;
        proof {
            assert(tickets@[i as int]@ =~= target[i as int]);
            assert forall|j: int| 0 <= j < tickets@.len() && j != i implies (
            #[trigger] tickets@[j]) == old_tickets[j] by {}
        }
        i = i + 1;
    }
    assert(matches@.take(i as int) =~= matches@);
    assert(tickets_view(tickets@) =~= target);
    (distributed, winners)
}

proof fn lemma_payout_sum_prefix(tiers: PrizeTiers, matches: Seq<u8>, n: int)
    requires
        0 <= n <= matches.len(),
    ensures
        payout_sum(tiers, matches.take(n)) <= payout_sum(tiers, matches),
    decreases matches.len() - n,
{
    if n == matches.len() {
        assert(matches.take(n) =~= matches);
    } else {
        assert(matches.take(n + 1).drop_last() =~= matches.take(n));
        lemma_payout_sum_prefix(tiers, matches, n + 1);
    }
}

/// What a draw settles besides the ledger itself.
struct Settlement {
    winning: Vec<u8>,
    counts: TierCounts,
    distributed: u128,
    rollover: u128,
    streak: u64,
}

/// Draws a round: derives the winning numbers, fixes the prizes and retains what does
/// not move into the next round.
fn settle_round(
    ledger: &mut RoundLedger,
    randomness: &Vec<u8>,
    numbers_per_ticket: u8,
    number_max: u8,
    rules: DrawRules,
) -> (settlement: Settlement)
    requires
        number_max > 0,
    ensures
        ({
            let d = drawing(
                old(ledger)@,
                winning_numbers(randomness@, numbers_per_ticket, number_max),
                rules,
            );
            &&& final(ledger)@ == settled(old(ledger)@, d)
            &&& settlement.winning@ == d.winning
            &&& settlement.counts@ == d.counts
            &&& settlement.distributed == d.distributed
            &&& settlement.rollover == d.rollover
            &&& settlement.streak == d.streak
        }),
{
    let ghost before = ledger@;
    let pool: u128 = ledger.round.pool;
    let winning = derive_winning_numbers(randomness.as_slice(), numbers_per_ticket, number_max);
    let (matches, counts) = count_winners(&ledger.tickets, &winning);
    let counted: bool = ledger.round.player_count >= MIN_PLAYERS_FOR_DRY_STREAK;
    let forced: bool = rules.max_dry_rounds > 0 && rules.streak >= rules.max_dry_rounds && counted
        && counts.six == 0 && (counts.five > 0 || counts.four > 0 || counts.three > 0);
    let streak: u64 = if !counted {
        rules.streak
    } else if counts.six > 0 || forced {
        0
    } else {
        rules.streak.saturating_add(1)
    };
    let tiers = compute_drawn_prizes(pool, &counts, forced);
    proof {
        law_prizes_never_exceed_pool(pool as nat, matches@, forced);
        lemma_paid_count_bounded(tiers, matches@);
    }
    let (distributed, winners) = assign_prizes(&mut ledger.tickets, &matches, &tiers, Ghost(pool));
    ledger.round.winning_numbers = Some(copy_bytes(winning.as_slice()));
    ledger.round.prize_tiers = tiers;
    ledger.round.winning_tickets = winners;
    ledger.round.status = RoundStatus::Settled;
    ledger.round.dry_streak_after = streak;
    let rollover: u128 = if rules.roll_over && counts.six == 0 {
        pool - distributed
    } else {
        0
    };
    ledger.round.pool = pool - rollover;
    proof {
        let d = drawing(before, winning@, rules);
        assert(d.matches == matches@);
        assert(ledger@ =~= settled(before, d));
    }
    Settlement { winning, counts, distributed, rollover, streak }
}

/// Writes the event of a draw.
fn describe_draw(
    round_id: u64,
    next_id: u64,
    found: &Settlement,
    Ghost(d): Ghost<Drawing>,
) -> (event: Event)
    requires
        next_id == round_id + 1,
        found.winning@ == d.winning,
        found.counts@ == d.counts,
        found.distributed == d.distributed,
        found.rollover == d.rollover,
    ensures
        event@ == draw_event(round_id, d),
{
    Event::new("winsaf/draw").attr("round_id", decimal_text(round_id as u128)).attr(
        "winning_numbers",
        numbers_csv(found.winning.as_slice()),
    ).attr("winners_3", decimal_text(found.counts.three as u128)).attr(
        "winners_4",
        decimal_text(found.counts.four as u128),
    ).attr("winners_5", decimal_text(found.counts.five as u128)).attr(
        "winners_6",
        decimal_text(found.counts.six as u128),
    ).attr("distributed", decimal_text(found.distributed)).attr(
        "rollover",
        decimal_text(found.rollover),
    ).attr("next_round_id", decimal_text(next_id as u128))
}

/// The randomness that a draw of a round consumes, or why there is none.
fn take_randomness(ledger: &RoundLedger, round_id: u64) -> (result: Result<Vec<u8>, ContractError>)
    ensures
        match result {
            Ok(randomness) => drawable(ledger@) == Some(randomness@),
            Err(e) => if ledger@.randomness is None {
                e@ == (ErrorView::NoCommitment { round_id })
            } else {
                drawable(ledger@) is None && e@ == (ErrorView::VerificationFailed {
                    reason: "randomness for round "@ + decimal(round_id as nat)
                        + " not yet fulfilled"@,
                })
            },
        },
        result is Ok ==> ledger@.randomness is Some,
{
    match &ledger.randomness {
        None => Err(ContractError::NoCommitment { round_id }),
        Some(request) => match (request.status, &request.randomness) {
            (RandomnessStatus::Fulfilled, Some(randomness)) => Ok(
                copy_bytes(randomness.as_slice()),
            ),
            _ => Err(
                ContractError::VerificationFailed {
                    reason: join3(
                        "randomness for round ",
                        decimal_text(round_id as u128).as_str(),
                        " not yet fulfilled",
                    ),
                },
            ),
        },
    }
}

/// Draws a closed round whose randomness is there, fixes the prizes and opens the
/// next round with what may roll over.
pub fn execute_draw(state: &mut State, env: &Env, round_id: u64) -> (result: Result<
    Response,
    ContractError,
>)
    requires
        old(state).wf(),
    ensures
        final(state).wf(),
        conforms(old(state)@, final(state)@, result, draw_outcome(old(state)@, *env, round_id)),
{
    let ghost s = state@;
    let at: usize = match state.find_round(round_id) {
        Some(at) => at,
        None => return Err(ContractError::RoundNotFound { round_id }),
    };
    assert(in_place(s.rounds, at as int));
    assert(s.ledger(round_id) == state.rounds@[at as int]@);
    let status = state.rounds[at].round.status;
    if status != RoundStatus::Drawing {
        return Err(
            ContractError::UnexpectedStatus {
                round_id,
                status: status_str(&status),
                expected: status_str(&RoundStatus::Drawing),
            },
        );
    }
    let randomness: Vec<u8> = match take_randomness(&state.rounds[at], round_id) {
        Ok(randomness) => randomness,
        Err(e) => return Err(e),
    };
    let next_id: u64 = match round_id.checked_add(1) {
        Some(next_id) => next_id,
        None => return Err(ContractError::invalid_config("round id overflow")),
    };
    let opens_at: u64 = env.seconds();
    let closes_at: u64 = match opens_at.checked_add(state.config.draw_interval) {
        Some(closes_at) => closes_at,
        None => return Err(
            ContractError::invalid_config("draw_interval overflows round close time"),
        ),
    };
    let numbers_per_ticket = state.config.numbers_per_ticket;
    let number_max = state.config.number_max;
    let rules = DrawRules {
        roll_over: state.config.rollover_on_no_winner,
        max_dry_rounds: state.config.max_dry_rounds,
        streak: state.dry_streak,
    };
    let ghost d = draw_of(s, round_id);
    let ledger: &mut RoundLedger = &mut state.rounds[at];
    let found = settle_round(ledger, &randomness, numbers_per_ticket, number_max, rules);
    let rolled_from: Option<u64> = if found.rollover == 0 {
        None
    } else {
        Some(round_id)
    };
    state.dry_streak = found.streak;
    let ghost rounds = state.rounds@;
    proof {
        assert(rounds_view(rounds) =~= s.rounds.update(at as int, settled(s.ledger(round_id), d)));
    }
    let next = RoundLedger {
        round: Round::new_open(next_id, opens_at, closes_at, found.rollover, rolled_from),
        tickets: Vec::new(),
        randomness: None,
    };
    state.rounds.push(next);
    proof {
        assert(tickets_view(next.tickets@) =~= Seq::<TicketView>::empty());
        assert(next@ =~= next_ledger(s, *env, round_id, d.rollover));
        assert(rounds_view(state.rounds@) =~= rounds_view(rounds).push(next@));
        assert(state@ =~= drawn(s, *env, round_id));
        assert forall|i: int| 0 <= i < state@.rounds.len() implies #[trigger] in_place(
            state@.rounds,
            i,
        ) by {
            if i < s.rounds.len() {
                assert(in_place(s.rounds, i));
            }
        }
    }
    let event = describe_draw(round_id, next_id, &found, Ghost(d));
    Ok(Response::recording(event))
}

/// Why a prize cannot be claimed.
pub open spec fn claim_refusal(
    s: StateView,
    sender: Seq<char>,
    round_id: u64,
    id: Seq<char>,
) -> Option<ErrorView> {
    let ledger = s.ledger(round_id);
    if !s.has_round(round_id) {
        Some(ContractError::RoundNotFound { round_id })
    } else {
        match named_ticket(id, ledger.tickets.len()) {
            None => Some(ContractError::TicketNotFound { round_id, ticket_id: id }),
            Some(i) => {
                let ticket = ledger.tickets[i];
                if ticket.owner != sender {
                    Some(ContractError::Unauthorized { role: "ticket owner"@ })
                } else if ticket.prize == 0 {
                    Some(ContractError::NoPrize { round_id, ticket_id: id })
                } else if ticket.claimed {
                    Some(ContractError::AlreadyClaimed { round_id, ticket_id: id })
                } else if ticket.prize > ledger.round.pool {
                    Some(
                        ContractError::PoolUnderflow {
                            round_id,
                            pool: decimal(ledger.round.pool),
                            requested: decimal(ticket.prize),
                        },
                    )
                } else {
                    None
                }
            },
        }
    }
}

/// The ledger of a round after the prize of ticket `i` has been paid.
pub open spec fn paid_out(ledger: LedgerView, i: int) -> LedgerView {
    let ticket = ledger.tickets[i];
    LedgerView {
        round: RoundView {
            pool: (ledger.round.pool - ticket.prize) as nat,
            ..ledger.round
        },
        tickets: ledger.tickets.update(i, TicketView { claimed: true, ..ticket }),
        ..ledger
    }
}

/// What claiming a prize leads to.
pub open spec fn claim_outcome(
    s: StateView,
    sender: Seq<char>,
    round_id: u64,
    id: Seq<char>,
) -> Outcome {
    let ledger = s.ledger(round_id);
    let i = named_ticket(id, ledger.tickets.len())->0;
    let ticket = ledger.tickets[i];
    unless_refused(
        claim_refusal(s, sender, round_id, id),
        s.with_ledger(round_id, paid_out(ledger, i)),
        ResponseView::paying(
            ticket.owner,
            Coin { denom: s.config.denom, amount: ticket.prize as u128 },
            EventView::named("winsaf/claim"@).attr("round_id"@, decimal(round_id as nat)).attr(
                "ticket_id"@,
                id,
            ).attr("owner"@, ticket.owner).attr("prize"@, decimal(ticket.prize)),
        ),
    )
}

/// Pays the prize of a ticket to its owner.
pub fn execute_claim_reward(
    state: &mut State,
    info: &MessageInfo,
    round_id: u64,
    ticket_id: String,
) -> (result: Result<Response, ContractError>)
    requires
        old(state).wf(),
    ensures
        final(state).wf(),
        conforms(
            old(state)@,
            final(state)@,
            result,
            claim_outcome(old(state)@, info@.sender, round_id, ticket_id@),
        ),
{
    let ghost s = state@;
    let at: usize = match state.find_round(round_id) {
        Some(at) => at,
        None => return Err(ContractError::RoundNotFound { round_id }),
    };
    assert(s.ledger(round_id) == state.rounds@[at as int]@);
    let i: usize = match find_ticket(&ticket_id, state.rounds[at].tickets.len()) {
        Some(i) => i,
        None => return Err(ContractError::TicketNotFound { round_id, ticket_id }),
    };
    assert(s.ledger(round_id).tickets[i as int] == state.rounds@[at as int].tickets@[i as int]@);
    let prize: u128 = state.rounds[at].tickets[i].prize;
    let pool: u128 = state.rounds[at].round.pool;
    if state.rounds[at].tickets[i].owner != info.sender {
        return Err(ContractError::unauthorized("ticket owner"));
    }
    if prize == 0 {
        return Err(ContractError::NoPrize { round_id, ticket_id });
    }
    if state.rounds[at].tickets[i].claimed {
        return Err(ContractError::AlreadyClaimed { round_id, ticket_id });
    }
    if prize > pool {
        return Err(
            ContractError::PoolUnderflow {
                round_id,
                pool: decimal_text(pool),
                requested: decimal_text(prize),
            },
        );
    }
    let owner = state.rounds[at].tickets[i].owner.clone();
    let ledger: &mut RoundLedger = &mut state.rounds[at];
    ledger.round.pool = pool - prize;
    let ticket: &mut Ticket = &mut ledger.tickets[i];
    ticket.claimed = true;
    let ghost after = ledger@;
    proof {
        let target = paid_out(s.ledger(round_id), i as int);
        assert(after.tickets[i as int] =~= target.tickets[i as int]);
        assert(after.tickets =~= target.tickets);
        assert(after =~= target);
        assert(rounds_view(state.rounds@) =~= s.rounds.update(at as int, after));
        assert forall|j: int| 0 <= j < state@.rounds.len() implies #[trigger] in_place(
            state@.rounds,
            j,
        ) by {
            assert(in_place(s.rounds, j));
        }
    }
    let coin = Coin { denom: state.config.denom.clone(), amount: prize };
    let event = Event::new("winsaf/claim").attr("round_id", decimal_text(round_id as u128)).attr(
        "ticket_id",
        ticket_id,
    ).attr("owner", owner.clone()).attr("prize", decimal_text(prize));
    Ok(Response::paying(owner, coin, event))
}

} // verus!
