//! What a draw does, ticket by ticket and coin by coin.

use crate::contract::execute_outcome;
use crate::error::{ContractError, ErrorView};
use crate::host::{Env, InfoView};
use crate::msg::ExecuteMsg;
use crate::picks::{hits, lemma_hits_bounded, valid_picks, winning_numbers};
use crate::prizes::{paid_count, payout_sum, tally, PrizeTiers};
use crate::response::ResponseView;
use crate::round_terms::seconds_of;
use crate::rounds::{draw_of, drawn, prized, settled, Drawing};
use crate::soundness::{ledger_sound, sound};
use crate::state::{in_place, LedgerView, RandomnessStatus, RoundView, StateView, TicketView};
use crate::status::RoundStatus;
use crate::text::decimal;
use vstd::prelude::*;

verus! {

/// How many tickets have exactly that many matches.
pub open spec fn with_matches(tickets: Seq<TicketView>, k: u8) -> nat {
    tickets.filter(|t: TicketView| t.matches == k).len()
}

/// How many tickets have six matches or more.
pub open spec fn with_all(tickets: Seq<TicketView>) -> nat {
    tickets.filter(|t: TicketView| t.matches >= 6).len()
}

/// What the prizes of tickets add up to.
pub open spec fn prize_total(tickets: Seq<TicketView>) -> nat {
    tickets.fold_left(0nat, |sum: nat, t: TicketView| sum + t.prize)
}

/// How many picks are among the winning numbers.
pub open spec fn common(picks: Seq<u8>, winning: Seq<u8>) -> nat {
    picks.filter(|p: u8| winning.contains(p)).len()
}

proof fn lemma_hits_are_common(picks: Seq<u8>, winning: Seq<u8>)
    ensures
        hits(picks, winning) == common(picks, winning),
    decreases picks.len(),
{
    reveal(Seq::filter);
    if picks.len() > 0 {
        lemma_hits_are_common(picks.drop_last(), winning);
    }
}

proof fn lemma_tally_counts(tickets: Seq<TicketView>)
    ensures
        ({
            let c = tally(Seq::new(tickets.len(), |i: int| tickets[i].matches));
            &&& c.three == with_matches(tickets, 3)
            &&& c.four == with_matches(tickets, 4)
            &&& c.five == with_matches(tickets, 5)
            &&& c.six == with_all(tickets)
        }),
    decreases tickets.len(),
{
    reveal(Seq::filter);
    let m = Seq::new(tickets.len(), |i: int| tickets[i].matches);
    if tickets.len() > 0 {
        let rest = tickets.drop_last();
        lemma_tally_counts(rest);
        assert(m.drop_last() =~= Seq::new(rest.len(), |i: int| rest[i].matches));
    }
}

proof fn lemma_prizes_add_up(tickets: Seq<TicketView>, matches: Seq<u8>, tiers: PrizeTiers)
    requires
        tickets.len() == matches.len(),
    ensures
        ({
            let after = prized(tickets, matches, tiers);
            &&& prize_total(after) == payout_sum(tiers, matches)
            &&& after.filter(|t: TicketView| t.prize > 0).len() == paid_count(tiers, matches)
        }),
    decreases tickets.len(),
{
    reveal(Seq::filter);
    if tickets.len() > 0 {
        lemma_prizes_add_up(tickets.drop_last(), matches.drop_last(), tiers);
        assert(prized(tickets, matches, tiers).drop_last() =~= prized(
            tickets.drop_last(),
            matches.drop_last(),
            tiers,
        ));
    }
}

/// A tier's share of a pool, in hundredths of a percent and rounded down; nothing where
/// the product does not fit.
pub open spec fn part_of(pool: nat, bps: nat) -> nat {
    if pool * bps > u128::MAX {
        0
    } else {
        pool * bps / 10_000
    }
}

/// What a ticket with that many matches is owed, given how many winners each tier has:
/// an equal part of what its tier has of the pool, that is 8, 12, 20 or 60 percent,
/// and for the best tier below the jackpot the jackpot's part too, if that is forced
/// down.
pub open spec fn due(
    pool: nat,
    matches: u8,
    three: nat,
    four: nat,
    five: nat,
    six: nat,
    forced: bool,
) -> nat {
    let extra = if forced {
        part_of(pool, 6000)
    } else {
        0
    };
    if matches >= 6 {
        part_of(pool, 6000) / six
    } else if matches == 5 {
        (part_of(pool, 2000) + extra) / five
    } else if matches == 4 {
        (part_of(pool, 1200) + if five == 0 {
            extra
        } else {
            0
        }) / four
    } else if matches == 3 {
        (part_of(pool, 800) + if five == 0 && four == 0 {
            extra
        } else {
            0
        }) / three
    } else {
        0
    }
}

/// Whether a draw forces the jackpot's part down: the streak has reached its limit, two
/// players or more took part, and someone won, but not the jackpot.
pub open spec fn forces_down(s: StateView, ledger: LedgerView, lower: nat, six: nat) -> bool {
    &&& 0 < s.config.max_dry_rounds <= s.dry_streak
    &&& ledger.round.player_count >= 2
    &&& six == 0
    &&& lower > 0
}

/// A draw's own counts and sums are those of the tickets afterwards.
pub proof fn lemma_draw_counts(before: LedgerView, d: Drawing)
    requires
        d.matches.len() == before.tickets.len(),
        d.counts == tally(d.matches),
        d.distributed == payout_sum(d.tiers, d.matches),
    ensures
        ({
            let tickets = settled(before, d).tickets;
            &&& d.counts.three == with_matches(tickets, 3)
            &&& d.counts.four == with_matches(tickets, 4)
            &&& d.counts.five == with_matches(tickets, 5)
            &&& d.counts.six == with_all(tickets)
            &&& d.distributed == prize_total(tickets)
        }),
{
    let tickets = settled(before, d).tickets;
    lemma_tally_counts(tickets);
    assert(Seq::new(tickets.len(), |j: int| tickets[j].matches) =~= d.matches);
    lemma_prizes_add_up(before.tickets, d.matches, d.tiers);
}

/// Why a draw is refused, the first reason that there is.
pub proof fn law_draw_needs_delivered_randomness(
    s: StateView,
    env: Env,
    info: InfoView,
    round_id: u64,
)
    ensures
        ({
            let outcome = execute_outcome(s, env, info, ExecuteMsg::Draw { round_id });
            let before = s.rounds[round_id - 1];
            if !(1 <= round_id <= s.rounds.len()) {
                outcome == Err::<(StateView, ResponseView), ErrorView>(
                    ContractError::RoundNotFound { round_id },
                )
            } else if before.round.status != RoundStatus::Drawing {
                outcome == Err::<(StateView, ResponseView), ErrorView>(
                    ContractError::UnexpectedStatus {
                        round_id,
                        status: before.round.status.word(),
                        expected: "drawing"@,
                    },
                )
            } else if before.randomness is None {
                outcome == Err::<(StateView, ResponseView), ErrorView>(
                    ContractError::NoCommitment { round_id },
                )
            } else if before.randomness->0.status != RandomnessStatus::Fulfilled
                || before.randomness->0.randomness is None {
                outcome == Err::<(StateView, ResponseView), ErrorView>(
                    ContractError::VerificationFailed {
                        reason: "randomness for round "@ + decimal(round_id as nat)
                            + " not yet fulfilled"@,
                    },
                )
            } else if round_id == u64::MAX {
                outcome == Err::<(StateView, ResponseView), ErrorView>(
                    ContractError::InvalidConfig { reason: "round id overflow"@ },
                )
            } else if seconds_of(env) + s.config.draw_interval > u64::MAX {
                outcome == Err::<(StateView, ResponseView), ErrorView>(
                    ContractError::InvalidConfig {
                        reason: "draw_interval overflows round close time"@,
                    },
                )
            } else {
                outcome is Ok
            }
        }),
{
}

/// A draw that is accepted finds the winning numbers in the delivered randomness, counts
/// for every ticket how many of its picks are among them, and assigns it what its tier
/// is due. Nothing else of a ticket changes.
pub proof fn law_draw_rewards_matches(s: StateView, env: Env, info: InfoView, round_id: u64, i: int)
    requires
        sound(s),
        execute_outcome(s, env, info, ExecuteMsg::Draw { round_id }) is Ok,
        0 <= i < s.rounds[round_id - 1].tickets.len(),
    ensures
        ({
            let (next, response) = execute_outcome(
                s,
                env,
                info,
                ExecuteMsg::Draw { round_id },
            )->Ok_0;
            let before = s.rounds[round_id - 1];
            let after = next.rounds[round_id - 1];
            let randomness = before.randomness->0.randomness->0;
            let winning = winning_numbers(
                randomness,
                s.config.numbers_per_ticket,
                s.config.number_max,
            );
            let three = with_matches(after.tickets, 3);
            let four = with_matches(after.tickets, 4);
            let five = with_matches(after.tickets, 5);
            let six = with_all(after.tickets);
            let forced = forces_down(s, before, three + four + five, six);
            let t = before.tickets[i];
            let u = after.tickets[i];
            &&& after.round.winning_numbers == Some(winning)
            &&& after.tickets.len() == before.tickets.len()
            &&& u.owner == t.owner && u.numbers == t.numbers && u.claimed == t.claimed && u.free
                == t.free
            &&& u.matches == common(t.numbers, winning)
            &&& u.prize == due(before.round.pool, u.matches, three, four, five, six, forced)
        }),
{
    let before = s.rounds[round_id - 1];
    assert(in_place(s.rounds, round_id - 1));
    assert(ledger_sound(before, s.config.numbers_per_ticket, s.config.number_max));
    let d = draw_of(s, round_id);
    let after = settled(before, d);
    let t = before.tickets[i];
    assert(valid_picks(t.numbers, s.config.numbers_per_ticket, s.config.number_max));
    lemma_hits_bounded(t.numbers, d.winning);
    lemma_hits_are_common(t.numbers, d.winning);
    lemma_tally_counts(after.tickets);
    assert(Seq::new(after.tickets.len(), |j: int| after.tickets[j].matches) =~= d.matches);
    lemma_due(before.round.pool, d.matches, i, d.forced);
}

proof fn lemma_due(pool: nat, matches: Seq<u8>, i: int, forced: bool)
    requires
        pool <= u128::MAX,
        0 <= i < matches.len(),
        forced ==> tally(matches).six == 0,
    ensures
        ({
            let c = tally(matches);
            let tiers = crate::prizes::drawn_prizes(pool, c, forced);
            tiers.payout(matches[i]) == due(
                pool,
                matches[i],
                c.three,
                c.four,
                c.five,
                c.six,
                forced,
            )
        }),
{
    let c = tally(matches);
    lemma_counted(matches, i);
    crate::prizes::lemma_prizes_fit(pool, c);
}

proof fn lemma_counted(matches: Seq<u8>, i: int)
    requires
        0 <= i < matches.len(),
    ensures
        ({
            let c = tally(matches);
            &&& matches[i] == 3 ==> c.three > 0
            &&& matches[i] == 4 ==> c.four > 0
            &&& matches[i] == 5 ==> c.five > 0
            &&& matches[i] >= 6 ==> c.six > 0
        }),
    decreases matches.len(),
{
    if i < matches.len() - 1 {
        lemma_counted(matches.drop_last(), i);
    }
}

/// A draw that is accepted keeps the whole pool: the prizes stay with the round, and
/// what is left moves into the next round if that is wanted and nobody won the
/// jackpot. It counts the winning tickets, moves the dry streak, and changes nothing
/// else.
pub proof fn law_draw_settles_the_round(s: StateView, env: Env, info: InfoView, round_id: u64)
    requires
        sound(s),
        execute_outcome(s, env, info, ExecuteMsg::Draw { round_id }) is Ok,
    ensures
        ({
            let (next, response) = execute_outcome(
                s,
                env,
                info,
                ExecuteMsg::Draw { round_id },
            )->Ok_0;
            let before = s.rounds[round_id - 1];
            let after = next.rounds[round_id - 1];
            let opened = next.rounds[round_id as int];
            let six = with_all(after.tickets);
            let lower = with_matches(after.tickets, 3) + with_matches(after.tickets, 4)
                + with_matches(after.tickets, 5);
            &&& response.messages.len() == 0
            &&& next == (StateView {
                rounds: s.rounds.update(round_id - 1, after).push(opened),
                dry_streak: next.dry_streak,
                ..s
            })
            &&& after.randomness == before.randomness
            &&& after.round == (RoundView {
                status: RoundStatus::Settled,
                pool: after.round.pool,
                winning_numbers: after.round.winning_numbers,
                prize_tiers: after.round.prize_tiers,
                winning_tickets: after.round.winning_tickets,
                dry_streak_after: next.dry_streak,
                ..before.round
            })
            &&& after.round.winning_tickets == after.tickets.filter(
                |t: TicketView| t.prize > 0,
            ).len() || after.tickets.len() > u64::MAX
            &&& prize_total(after.tickets) <= before.round.pool
            &&& opened.round.pool == if s.config.rollover_on_no_winner && six == 0 {
                before.round.pool - prize_total(after.tickets)
            } else {
                0
            }
            &&& opened.round.rolled_over_from == if opened.round.pool == 0 {
                None
            } else {
                Some(round_id)
            }
            &&& after.round.pool + opened.round.pool == before.round.pool
            &&& next.dry_streak == if before.round.player_count < 2 {
                s.dry_streak as int
            } else if six > 0 || forces_down(s, before, lower, six) {
                0
            } else if s.dry_streak == u64::MAX {
                u64::MAX as int
            } else {
                s.dry_streak + 1
            }
        }),
{
    let before = s.rounds[round_id - 1];
    assert(in_place(s.rounds, round_id - 1));
    assert(ledger_sound(before, s.config.numbers_per_ticket, s.config.number_max));
    let d = draw_of(s, round_id);
    let after = settled(before, d);
    lemma_tally_counts(after.tickets);
    assert(Seq::new(after.tickets.len(), |j: int| after.tickets[j].matches) =~= d.matches);
    lemma_prizes_add_up(before.tickets, d.matches, d.tiers);
    crate::prizes::law_prizes_never_exceed_pool(before.round.pool, d.matches, d.forced);
    crate::prizes::lemma_paid_count_bounded(d.tiers, d.matches);
    assert(drawn(s, env, round_id).rounds[round_id as int] == drawn(
        s,
        env,
        round_id,
    ).rounds.last());
}

/// What a settled round shows as the prize of a tier is what a ticket of this tier is
/// due, and nothing where the tier has no winner.
pub proof fn law_draw_shows_what_is_due(
    s: StateView,
    env: Env,
    info: InfoView,
    round_id: u64,
)
    requires
        sound(s),
        execute_outcome(s, env, info, ExecuteMsg::Draw { round_id }) is Ok,
    ensures
        ({
            let next = execute_outcome(s, env, info, ExecuteMsg::Draw { round_id })->Ok_0.0;
            let before = s.rounds[round_id - 1];
            let after = next.rounds[round_id - 1];
            let three = with_matches(after.tickets, 3);
            let four = with_matches(after.tickets, 4);
            let five = with_matches(after.tickets, 5);
            let six = with_all(after.tickets);
            let forced = forces_down(s, before, three + four + five, six);
            let pool = before.round.pool;
            let tiers = after.round.prize_tiers;
            &&& tiers.tier_3 == if three == 0 {
                0
            } else {
                due(pool, 3, three, four, five, six, forced)
            }
            &&& tiers.tier_4 == if four == 0 {
                0
            } else {
                due(pool, 4, three, four, five, six, forced)
            }
            &&& tiers.tier_5 == if five == 0 {
                0
            } else {
                due(pool, 5, three, four, five, six, forced)
            }
            &&& tiers.tier_6 == if six == 0 {
                0
            } else {
                due(pool, 6, three, four, five, six, forced)
            }
        }),
{
    let before = s.rounds[round_id - 1];
    assert(in_place(s.rounds, round_id - 1));
    assert(ledger_sound(before, s.config.numbers_per_ticket, s.config.number_max));
    let d = draw_of(s, round_id);
    let after = settled(before, d);
    lemma_tally_counts(after.tickets);
    assert(Seq::new(after.tickets.len(), |j: int| after.tickets[j].matches) =~= d.matches);
    crate::prizes::lemma_prizes_fit(before.round.pool, d.counts);
}

} // verus!
