//! What the draw of a round promises, and what happens where it does not take place.

use crate::beacon::{law_first_round_after_is_first, published_at};
use crate::cancel::{cancel_outcome, cancelled, is_delivered, lemma_refunds_fit, refund_of};
use crate::constants::{CANCEL_GRACE_SECONDS, MIN_PLAYERS_FOR_DRY_STREAK};
use crate::contract::execute_outcome;
use crate::host::{AddrView, Env, InfoView};
use crate::laws::law_unpaid_prizes_can_be_claimed;
use crate::msg::ExecuteMsg;
use crate::outcome::state_after;
use crate::prizes::{
    has_lower_winner, law_forced_jackpot_is_distributed, tier_share, TIER3_BPS, TIER4_BPS,
    TIER5_BPS, TIER6_BPS,
};
use crate::queries::{shown_prize, won};
use crate::referral::count_up;
use crate::rounds::{beacon_round_of, claim_outcome, close_outcome, draw_of, draw_outcome};
use crate::soundness::{ledger_sound, law_requests_keep_soundness, prize_sum, sound};
use crate::state::{in_place, RandomnessMode, StateView, TicketView};
use crate::status::RoundStatus;
use crate::streaks::{dry_rounds, keeps_streak, lemma_dry_rounds_add_up};
use crate::ticket_ids::ticket_name;
use vstd::prelude::*;

verus! {

/// In drand mode a closed round waits for a beacon round that is published only after
/// the round's closing time, and for the first such one: whatever the beacon had
/// published by then cannot be used.
pub proof fn law_beacon_round_comes_after_closing(s: StateView, env: Env, earlier: int)
    requires
        sound(s),
        s.config.randomness_mode == RandomnessMode::Drand,
        close_outcome(s, env) is Ok,
        beacon_round_of(s.config, s.rounds.last().round) < u64::MAX,
    ensures
        ({
            let next = state_after(s, close_outcome(s, env));
            let round = next.rounds.last().round;
            let genesis = s.config.drand_genesis_time;
            let period = s.config.drand_period;
            &&& next.rounds.last().randomness matches Some(request) && {
                &&& published_at(genesis, period, request.beacon_round as int) > round.closes_at
                &&& 1 <= earlier < request.beacon_round ==> published_at(genesis, period, earlier)
                    <= round.closes_at
            }
        }),
{
    assert(in_place(s.rounds, s.rounds.len() - 1));
    law_first_round_after_is_first(
        s.config.drand_genesis_time,
        s.config.drand_period,
        s.rounds.last().round.closes_at,
        earlier,
    );
}

/// The dry streak changes with a draw alone.
pub proof fn law_streak_changes_with_draws_alone(
    s: StateView,
    env: Env,
    info: InfoView,
    msg: ExecuteMsg,
)
    requires
        !(msg is Draw),
    ensures
        state_after(s, execute_outcome(s, env, info, msg)).dry_streak == s.dry_streak,
{
}

/// A draw prolongs the dry streak by one if the round had players enough and its
/// jackpot share was not paid, ends it if the share was paid, and leaves it alone if
/// the round had too few players. The round remembers the streak.
pub proof fn law_draw_moves_the_streak(s: StateView, env: Env, round_id: u64)
    requires
        draw_outcome(s, env, round_id) is Ok,
        s.wf(),
    ensures
        ({
            let next = state_after(s, draw_outcome(s, env, round_id));
            let d = draw_of(s, round_id);
            &&& next.ledger(round_id).round.dry_streak_after == next.dry_streak
            &&& next.dry_streak == if s.ledger(round_id).round.player_count
                < MIN_PLAYERS_FOR_DRY_STREAK {
                s.dry_streak
            } else if d.counts.six > 0 || d.forced {
                0
            } else {
                count_up(s.dry_streak)
            }
        }),
{
    assert(in_place(s.rounds, round_id - 1));
}

/// The dry streak counts the dry rounds since it last ended: rounds with too few
/// players and rounds that were given up between them change nothing.
pub proof fn law_dry_rounds_add_up(s: StateView, first: nat)
    requires
        sound(s),
        first <= s.rounds.len(),
        forall|i: int| first <= i < s.rounds.len() ==> keeps_streak(#[trigger] s.rounds[i]),
    ensures
        s.dry_streak >= dry_rounds(s.rounds, first, s.rounds.len()),
{
    assert(in_place(s.rounds, s.rounds.len() - 1));
    lemma_dry_rounds_add_up(s.rounds, first, s.rounds.len());
}

/// The jackpot share does not wait for ever: once the streak has reached its limit, a
/// round with players enough, no jackpot winner and some lower winner pays the share,
/// on top of that tier's own, to the best tier present, up to what does not divide
/// equally, and ends the streak.
pub proof fn law_jackpot_share_is_forced_down(s: StateView, env: Env, round_id: u64)
    requires
        sound(s),
        draw_outcome(s, env, round_id) is Ok,
        s.config.max_dry_rounds > 0,
        s.dry_streak >= s.config.max_dry_rounds,
        s.ledger(round_id).round.player_count >= MIN_PLAYERS_FOR_DRY_STREAK,
        draw_of(s, round_id).counts.six == 0,
        has_lower_winner(draw_of(s, round_id).counts),
    ensures
        ({
            let next = state_after(s, draw_outcome(s, env, round_id));
            let pool = s.ledger(round_id).round.pool;
            let jackpot = tier_share(pool, TIER6_BPS as nat);
            let counts = draw_of(s, round_id).counts;
            let tiers = next.ledger(round_id).round.prize_tiers;
            let (winners, prize, own) = if counts.five > 0 {
                (counts.five, tiers.tier_5 as nat, tier_share(pool, TIER5_BPS as nat))
            } else if counts.four > 0 {
                (counts.four, tiers.tier_4 as nat, tier_share(pool, TIER4_BPS as nat))
            } else {
                (counts.three, tiers.tier_3 as nat, tier_share(pool, TIER3_BPS as nat))
            };
            &&& next.dry_streak == 0
            &&& winners * prize <= own + jackpot < winners * prize + winners
        }),
{
    assert(in_place(s.rounds, round_id - 1));
    assert(ledger_sound(
        s.ledger(round_id),
        s.config.numbers_per_ticket,
        s.config.number_max,
    ));
    law_forced_jackpot_is_distributed(
        s.ledger(round_id).round.pool,
        draw_of(s, round_id).counts,
    );
}

/// Nobody can hold a round up for ever: a closed round without randomness can be given
/// up by the admin at once, and by everyone when the grace period is over or, with
/// commit-reveal, when the time for the reveal is over.
pub proof fn law_stuck_round_can_be_cancelled(
    s: StateView,
    env: Env,
    sender: Seq<char>,
    round_id: u64,
)
    requires
        s.has_round(round_id),
        s.ledger(round_id).round.status == RoundStatus::Drawing,
        !is_delivered(s.ledger(round_id)),
        round_id < u64::MAX,
        env.now() + s.config.draw_interval <= u64::MAX,
    ensures
        cancel_outcome(s, env, sender, round_id) is Ok <==> {
            ||| sender == s.config.admin
            ||| env.now() >= s.ledger(round_id).round.closes_at + CANCEL_GRACE_SECONDS
            ||| s.config.randomness_mode == RandomnessMode::CommitReveal && (s.ledger(
                round_id,
            ).randomness matches Some(request) && (request.reveal_deadline matches Some(deadline)
                && env.now() >= deadline))
        },
{
}

/// A round whose randomness has been delivered is never given up: its draw stands.
pub proof fn law_delivered_round_is_not_cancelled(
    s: StateView,
    env: Env,
    sender: Seq<char>,
    round_id: u64,
)
    requires
        is_delivered(s.ledger(round_id)),
    ensures
        cancel_outcome(s, env, sender, round_id) is Err,
{
}

/// Giving up a round keeps its whole pool for the players: every ticket is refunded
/// the same, the refunds leave less than one unit per ticket over, and that rest
/// stays in the round's pool or starts the next round.
pub proof fn law_cancelled_pool_is_refunded(
    s: StateView,
    env: Env,
    sender: Seq<char>,
    round_id: u64,
)
    requires
        s.wf(),
        cancel_outcome(s, env, sender, round_id) is Ok,
    ensures
        ({
            let next = state_after(s, cancel_outcome(s, env, sender, round_id));
            let before = s.ledger(round_id);
            let after = next.ledger(round_id);
            let n = before.tickets.len();
            &&& after.round.status == RoundStatus::Cancelled
            &&& after.round.pool + next.rounds.last().round.pool == before.round.pool
            &&& next.rounds.last().round.status == RoundStatus::Open
            &&& next.rounds.len() == s.rounds.len() + 1
            &&& after.tickets.len() == n
            &&& forall|i: int|
                0 <= i < n ==> (#[trigger] after.tickets[i]) == (TicketView {
                    prize: refund_of(before),
                    ..before.tickets[i]
                })
            &&& n > 0 ==> n * refund_of(before) <= before.round.pool < n * refund_of(before) + n
        }),
{
    let before = s.ledger(round_id);
    assert(in_place(s.rounds, round_id - 1));
    lemma_refunds_fit(before);
    let n = before.tickets.len();
    if n > 0 {
        vstd::arithmetic::div_mod::lemma_fundamental_div_mod(before.round.pool as int, n as int);
    }
}

/// After a round has been given up, every owner can claim the refund of a ticket.
pub proof fn law_refunds_can_be_claimed(
    s: StateView,
    env: Env,
    info: InfoView,
    round_id: u64,
    i: int,
)
    requires
        sound(s),
        cancel_outcome(s, env, info.sender, round_id) is Ok,
        0 <= i < s.ledger(round_id).tickets.len(),
        refund_of(s.ledger(round_id)) > 0,
    ensures
        claim_outcome(
            state_after(s, cancel_outcome(s, env, info.sender, round_id)),
            s.ledger(round_id).tickets[i].owner,
            round_id,
            ticket_name(i as nat),
        ) is Ok,
{
    let msg = ExecuteMsg::CancelRound { round_id };
    law_requests_keep_soundness(s, env, info, msg);
    let next = state_after(s, cancel_outcome(s, env, info.sender, round_id));
    assert(in_place(s.rounds, round_id - 1));
    let before = s.ledger(round_id);
    assert(ledger_sound(before, s.config.numbers_per_ticket, s.config.number_max));
    assert(next.ledger(round_id) == cancelled(before, s.config.rollover_on_no_winner));
    law_unpaid_prizes_can_be_claimed(next, round_id, i);
}

proof fn lemma_won_within(tickets: Seq<TicketView>, n: nat, who: Seq<char>, claimed: bool)
    requires
        n <= tickets.len(),
    ensures
        won(tickets, n, who, claimed) <= prize_sum(tickets.take(n as int)),
    decreases n,
{
    if n > 0 {
        lemma_won_within(tickets, (n - 1) as nat, who, claimed);
        assert(tickets.take(n as int).drop_last() =~= tickets.take(n - 1));
    }
}

/// The prizes of every account in every round can be asked for.
pub proof fn law_prizes_can_be_shown(s: StateView, round_id: u64, owner: AddrView)
    requires
        sound(s),
        s.has_round(round_id),
        owner.verdict is Ok,
    ensures
        shown_prize(s, round_id, owner) is Ok,
{
    let tickets = s.ledger(round_id).tickets;
    let who = owner.verdict->Ok_0;
    assert(ledger_sound(
        s.ledger(round_id),
        s.config.numbers_per_ticket,
        s.config.number_max,
    ));
    assert(tickets.take(tickets.len() as int) =~= tickets);
    lemma_won_within(tickets, tickets.len(), who, true);
    lemma_won_within(tickets, tickets.len(), who, false);
}

} // verus!
