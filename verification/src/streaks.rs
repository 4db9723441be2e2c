//! How the dry streak follows from the rounds that have been drawn.

use crate::constants::MIN_PLAYERS_FOR_DRY_STREAK;
use crate::prizes::tally;
use crate::referral::count_up;
use crate::state::{LedgerView, StateView, TicketView};
use crate::status::RoundStatus;
use vstd::prelude::*;

verus! {

/// How many tickets of a drawn round won the jackpot.
pub open spec fn jackpots(tickets: Seq<TicketView>) -> nat {
    tally(Seq::new(tickets.len(), |i: int| tickets[i].matches)).six
}

/// The dry streak after the first `n` rounds: that of the last one drawn among them.
pub open spec fn streak_through(rounds: Seq<LedgerView>, n: nat) -> u64
    decreases n,
{
    if n == 0 {
        0
    } else if rounds[n - 1].round.status == RoundStatus::Settled {
        rounds[n - 1].round.dry_streak_after
    } else {
        streak_through(rounds, (n - 1) as nat)
    }
}

/// Whether a drawn round moved the dry streak as it should: with too few players not
/// at all, with a jackpot winner to zero, and otherwise up by one or, where the
/// jackpot share was forced down, to zero.
pub open spec fn moves_streak(ledger: LedgerView, before: u64) -> bool {
    let after = ledger.round.dry_streak_after;
    if ledger.round.player_count < MIN_PLAYERS_FOR_DRY_STREAK {
        after == before
    } else if jackpots(ledger.tickets) > 0 {
        after == 0
    } else {
        after == 0 || after == count_up(before)
    }
}

/// Whether the round at a place is not drawn or moved the dry streak as it should.
pub open spec fn streak_in_place(rounds: Seq<LedgerView>, i: int) -> bool {
    rounds[i].round.status == RoundStatus::Settled ==> moves_streak(
        rounds[i],
        streak_through(rounds, i as nat),
    )
}

/// Whether the dry streak is what the drawn rounds make it.
pub open spec fn streaks_sound(s: StateView) -> bool {
    &&& s.dry_streak == streak_through(s.rounds, s.rounds.len())
    &&& forall|i: int| 0 <= i < s.rounds.len() ==> #[trigger] streak_in_place(s.rounds, i)
}

/// Whether two stages of a round say the same of the dry streak.
pub open spec fn same_result(a: LedgerView, b: LedgerView) -> bool {
    &&& a.round.status == RoundStatus::Settled <==> b.round.status == RoundStatus::Settled
    &&& b.round.status == RoundStatus::Settled ==> {
        &&& a.round.dry_streak_after == b.round.dry_streak_after
        &&& a.round.player_count == b.round.player_count
        &&& jackpots(a.tickets) == jackpots(b.tickets)
    }
}

/// The streak after some rounds depends on what these rounds say of it alone.
pub proof fn lemma_same_streak(a: Seq<LedgerView>, b: Seq<LedgerView>, n: nat)
    requires
        n <= a.len(),
        n <= b.len(),
        forall|i: int| 0 <= i < n ==> same_result(#[trigger] a[i], b[i]),
    ensures
        streak_through(a, n) == streak_through(b, n),
    decreases n,
{
    if n > 0 {
        assert(same_result(a[n - 1], b[n - 1]));
        lemma_same_streak(a, b, (n - 1) as nat);
    }
}

/// A request that leaves what all rounds say of the dry streak keeps it in order.
pub proof fn lemma_streaks_kept(s: StateView, t: StateView)
    requires
        streaks_sound(s),
        t.dry_streak == s.dry_streak,
        t.rounds.len() == s.rounds.len(),
        forall|i: int|
            0 <= i < s.rounds.len() ==> same_result(#[trigger] t.rounds[i], s.rounds[i]),
    ensures
        streaks_sound(t),
{
    lemma_same_streak(t.rounds, s.rounds, s.rounds.len());
    assert forall|i: int| 0 <= i < t.rounds.len() implies #[trigger] streak_in_place(
        t.rounds,
        i,
    ) by {
        assert(streak_in_place(s.rounds, i));
        lemma_same_streak(t.rounds, s.rounds, i as nat);
        assert(same_result(t.rounds[i], s.rounds[i]));
    }
}

/// Finishing the current round keeps the dry streak in order, if a draw moves it as it
/// should and anything else leaves it alone.
pub proof fn lemma_streak_after_round(
    s: StateView,
    t: StateView,
    after: LedgerView,
    next: LedgerView,
)
    requires
        streaks_sound(s),
        s.rounds.len() > 0,
        s.rounds.last().round.status != RoundStatus::Settled,
        t.rounds == s.rounds.update(s.rounds.len() - 1, after).push(next),
        next.round.status == RoundStatus::Open,
        if after.round.status == RoundStatus::Settled {
            t.dry_streak == after.round.dry_streak_after && moves_streak(after, s.dry_streak)
        } else {
            t.dry_streak == s.dry_streak
        },
    ensures
        streaks_sound(t),
{
    let n = (s.rounds.len() - 1) as nat;
    lemma_same_streak(t.rounds, s.rounds, n);
    assert(t.rounds[n as int] == after);
    assert(t.rounds[n as int + 1] == next);
    assert(streak_through(s.rounds, s.rounds.len()) == streak_through(s.rounds, n));
    assert(streak_through(t.rounds, (n + 2) as nat) == streak_through(t.rounds, n + 1));
    assert forall|i: int| 0 <= i < t.rounds.len() implies #[trigger] streak_in_place(
        t.rounds,
        i,
    ) by {
        if i < n {
            assert(streak_in_place(s.rounds, i));
            lemma_same_streak(t.rounds, s.rounds, i as nat);
        }
    }
}

/// Whether a round was drawn, had players enough and no jackpot winner, and did not
/// force the jackpot share down.
pub open spec fn is_dry(ledger: LedgerView) -> bool {
    &&& ledger.round.status == RoundStatus::Settled
    &&& ledger.round.player_count >= MIN_PLAYERS_FOR_DRY_STREAK
    &&& jackpots(ledger.tickets) == 0
    &&& ledger.round.dry_streak_after > 0
}

/// Whether a round does not end the dry streak: it is dry, it had too few players to
/// count, or it was not drawn.
pub open spec fn keeps_streak(ledger: LedgerView) -> bool {
    ||| is_dry(ledger)
    ||| ledger.round.player_count < MIN_PLAYERS_FOR_DRY_STREAK
    ||| ledger.round.status != RoundStatus::Settled
}

/// The number of dry rounds among those from place `first` up to place `end`.
pub open spec fn dry_rounds(rounds: Seq<LedgerView>, first: nat, end: nat) -> nat
    decreases end,
{
    if end <= first {
        0
    } else {
        dry_rounds(rounds, first, (end - 1) as nat) + if is_dry(rounds[end - 1]) {
            1nat
        } else {
            0
        }
    }
}

/// As long as no round ends the streak, it counts the dry rounds.
pub proof fn lemma_dry_rounds_add_up(rounds: Seq<LedgerView>, first: nat, end: nat)
    requires
        first <= end <= rounds.len() <= u64::MAX,
        forall|i: int| 0 <= i < rounds.len() ==> #[trigger] streak_in_place(rounds, i),
        forall|i: int| first <= i < end ==> keeps_streak(#[trigger] rounds[i]),
    ensures
        streak_through(rounds, end) >= dry_rounds(rounds, first, end),
        dry_rounds(rounds, first, end) <= end - first,
    decreases end,
{
    if first < end {
        lemma_dry_rounds_add_up(rounds, first, (end - 1) as nat);
        assert(keeps_streak(rounds[end - 1]));
        assert(streak_in_place(rounds, end - 1));
    }
}

} // verus!
