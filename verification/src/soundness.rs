//! What holds of every state that the contract can reach.

use crate::admin::{
    fresh_state, instantiate_outcome, instantiate_refusal, pause_outcome,
    randomness_config_refusal, requested_config, rules_refusal, with_beacon_clock,
    withdraw_outcome, withdraw_refusal,
};
use crate::beacon::bytes_view;
use crate::cancel::{
    after_cancel, cancel_outcome, cancel_refusal, cancelled, lemma_refunds_fit, refund_of,
    refund_rest, refunded,
};
use crate::codes::{normal_code_refusal, normalized};
use crate::contract::{execute_outcome, migrate_outcome};
use crate::host::{addr_option_view, text_view, AddrView, Env, InfoView};
use crate::msg::{ExecuteMsg, InstantiateMsg};
use crate::outcome::state_after;
use crate::picks::{
    law_accepted_picks_are_valid, law_picked_numbers_are_valid, matches_of, picked, valid_picks,
    winning_numbers,
};
use crate::prizes::{law_prizes_never_exceed_pool, payout_sum, PrizeTiers};
use crate::randomness::{
    commit_outcome, commit_refusal, pending_refusal, reveal_deadline, reveal_outcome,
    reveal_refusal, signature_digest, submit_outcome, submit_refusal, with_request,
};
use crate::referral::{
    bind_outcome, bind_refusal, bound, buyer_referrer, claim_referral_outcome,
    claim_referral_refusal, count_up, credit_refusal, credited, normal_form, referral_paid,
    register_outcome, register_refusal, requested_referrer,
};
use crate::rounds::{
    beacon_round_of, claim_outcome, claim_refusal, close_outcome, close_refusal, closed, draw_of,
    draw_outcome, draw_refusal, drawable, drawn, next_ledger, paid_out, prized, settled, Drawing,
};
use crate::sales::{
    bought, bought_picks, bought_tickets, buy_outcome, buy_refusal, entropy_after,
    first_picks_refusal, lemma_entropy_joined, lemma_entropy_same, grant_outcome, grant_refusal,
    owns_one, pool_share, price_of, referred, sold,
};
use crate::settings::{
    admin_changed, changed, coin_option_view, interval_changed, lemma_switches_keep_game,
    names_view, price_changed, set_config_outcome, split_changed, submitters_added,
    submitters_removed, switches_changed, ChangeView, SetConfigArgs,
};
use crate::state::{
    in_place, no_entropy, ConfigView, LedgerView, RandomnessStatus, RequestView, StateView,
    TicketView,
};
use crate::status::RoundStatus;
use crate::streaks::{
    lemma_streak_after_round, lemma_streaks_kept, moves_streak, same_result, streak_through,
    streaks_sound,
};
use crate::ticket_ids::{named_ticket, names_ticket};
use crate::verify::{sha256_digest, PairingAnswer, RANDOMNESS_LEN};
use vstd::prelude::*;

verus! {

/// A count as a counter that stops at its end shows it.
pub open spec fn capped(n: nat) -> u64 {
    if n <= u64::MAX {
        n as u64
    } else {
        u64::MAX
    }
}

/// What the tickets still have to be paid.
pub open spec fn unclaimed(tickets: Seq<TicketView>) -> nat
    decreases tickets.len(),
{
    if tickets.len() == 0 {
        0
    } else {
        unclaimed(tickets.drop_last()) + if tickets.last().claimed {
            0
        } else {
            tickets.last().prize
        }
    }
}

/// What the prizes or refunds of the tickets add up to, claimed or not.
pub open spec fn prize_sum(tickets: Seq<TicketView>) -> nat
    decreases tickets.len(),
{
    if tickets.len() == 0 {
        0
    } else {
        prize_sum(tickets.drop_last()) + tickets.last().prize
    }
}

/// The distinct owners of some tickets.
pub open spec fn owners(tickets: Seq<TicketView>) -> Set<Seq<char>>
    decreases tickets.len(),
{
    if tickets.len() == 0 {
        Set::empty()
    } else {
        owners(tickets.drop_last()).insert(tickets.last().owner)
    }
}

/// The accounts that are bound to a referrer.
pub open spec fn referees_of(bindings: Map<Seq<char>, Seq<char>>, referrer: Seq<char>) -> Set<
    Seq<char>,
> {
    bindings.dom().filter(|referee: Seq<char>| bindings[referee] == referrer)
}

/// Whether a configuration keeps all rules and has the beacon's clock in order.
pub open spec fn config_sound(config: ConfigView) -> bool {
    &&& rules_refusal(config) is None
    &&& randomness_config_refusal(config) is None
    &&& with_beacon_clock(config) == config
}

/// Whether the randomness of a round is in order: it belongs to the round, it is
/// there exactly when fulfilled, a commitment names who made it, when, and how long
/// the reveal may take, and everything in it has the right length.
pub open spec fn request_sound(request: RequestView, round_id: u64) -> bool {
    &&& request.round_id == round_id
    &&& request.status == RandomnessStatus::Fulfilled <==> request.randomness is Some
    &&& request.randomness matches Some(r) ==> r.len() == RANDOMNESS_LEN
    &&& request.commitment matches Some(c) ==> c.len() == RANDOMNESS_LEN
    &&& request.commitment is Some <==> request.committer is Some
    &&& request.commitment is Some <==> request.commit_height is Some
    &&& request.commitment is Some <==> request.reveal_deadline is Some
}

/// Whether a ticket waits for its draw.
pub open spec fn undrawn(ticket: TicketView) -> bool {
    ticket.matches == 0 && ticket.prize == 0 && !ticket.claimed
}

/// Whether a ticket has what the draw gives it, and only a prize can be claimed.
pub open spec fn evaluated(ticket: TicketView, winning: Seq<u8>, tiers: PrizeTiers) -> bool {
    &&& ticket.matches == matches_of(ticket.numbers, winning)
    &&& ticket.prize == tiers.payout(ticket.matches)
    &&& ticket.claimed ==> ticket.prize > 0
}

/// Whether a ticket of a given-up round has its refund, and only a refund can be
/// claimed.
pub open spec fn reimbursed(ticket: TicketView, refund: nat) -> bool {
    &&& ticket.matches == 0
    &&& ticket.prize == refund
    &&& ticket.claimed ==> ticket.prize > 0
}

/// Whether all tickets of a given-up round have the same refund.
pub open spec fn all_reimbursed(tickets: Seq<TicketView>, refund: nat) -> bool {
    forall|i: int| 0 <= i < tickets.len() ==> reimbursed(#[trigger] tickets[i], refund)
}

/// Whether a round is in order: its counters tell the tickets and their owners, its
/// digest tells the owners and picks of all tickets in the order of purchase, every
/// ticket has valid picks, no ticket has a prize before the round is finished, and
/// afterwards the pool holds what the tickets still have to be paid.
pub open spec fn ledger_sound(ledger: LedgerView, numbers_per_ticket: u8, number_max: u8) -> bool {
    let r = ledger.round;
    &&& r.pool <= u128::MAX
    &&& r.ticket_count == capped(ledger.tickets.len())
    &&& r.player_count == capped(owners(ledger.tickets).len())
    &&& r.ticket_entropy == entropy_after(no_entropy(), 0, ledger.tickets)
    &&& prize_sum(ledger.tickets) <= u128::MAX
    &&& unclaimed(ledger.tickets) <= r.pool
    &&& forall|i: int|
        0 <= i < ledger.tickets.len() ==> valid_picks(
            (#[trigger] ledger.tickets[i]).numbers,
            numbers_per_ticket,
            number_max,
        )
    &&& ledger.randomness matches Some(request) ==> request_sound(request, r.id)
    &&& match r.status {
        RoundStatus::Open => ledger.randomness is None && r.winning_numbers is None && (forall|
            i: int,
        |
            0 <= i < ledger.tickets.len() ==> undrawn(#[trigger] ledger.tickets[i])),
        RoundStatus::Drawing => ledger.randomness is Some && r.winning_numbers is None && (forall|
            i: int,
        |
            0 <= i < ledger.tickets.len() ==> undrawn(#[trigger] ledger.tickets[i])),
        RoundStatus::Settled => {
            &&& drawable(ledger) is Some
            &&& r.winning_numbers == Some(
                winning_numbers(drawable(ledger)->0, numbers_per_ticket, number_max),
            )
            &&& forall|i: int|
                0 <= i < ledger.tickets.len() ==> evaluated(
                    #[trigger] ledger.tickets[i],
                    r.winning_numbers->0,
                    r.prize_tiers,
                )
        },
        RoundStatus::Cancelled => {
            &&& ledger.randomness matches Some(request) && request.randomness is None
            &&& r.winning_numbers is None
            &&& exists|refund: nat| #[trigger] all_reimbursed(ledger.tickets, refund)
        },
        RoundStatus::Drawn => false,
    }
}

/// Whether the referral ledgers are in order: nobody referred themselves, every
/// registered code is valid, and the aggregates of a referrer tell the bound
/// accounts and what was earned, claimed or not.
pub open spec fn referrals_sound(s: StateView) -> bool {
    &&& s.referrer.dom().finite()
    &&& s.earnings.dom().finite()
    &&& forall|who: Seq<char>| s.referrer.dom().contains(who) ==> #[trigger] s.referrer[who] != who
    &&& forall|code: Seq<char>| #[trigger]
        s.codes.dom().contains(code) ==> normal_code_refusal(code) is None
    &&& forall|who: Seq<char>| #[trigger] totals_sound(s, who)
}

/// Whether the aggregates of a referrer fit the other ledgers.
pub open spec fn totals_sound(s: StateView, who: Seq<char>) -> bool {
    let t = s.totals_of(who);
    &&& t.lifetime_earned == s.earned(who) + t.lifetime_claimed
    &&& t.referees == capped(referees_of(s.referrer, who).len())
}

/// What holds of every state that the contract can reach.
pub open spec fn sound(s: StateView) -> bool {
    &&& s.wf()
    &&& config_sound(s.config)
    &&& s.treasury <= u128::MAX
    &&& forall|i: int|
        0 <= i < s.rounds.len() ==> ledger_sound(
            #[trigger] s.rounds[i],
            s.config.numbers_per_ticket,
            s.config.number_max,
        )
    &&& referrals_sound(s)
    &&& streaks_sound(s)
}

proof fn lemma_owners(tickets: Seq<TicketView>)
    ensures
        owners(tickets).finite(),
        forall|who: Seq<char>| owners(tickets).contains(who) <==> owns_one(tickets, who),
    decreases tickets.len(),
{
    if tickets.len() > 0 {
        let rest = tickets.drop_last();
        lemma_owners(rest);
        assert forall|who: Seq<char>| owners(tickets).contains(who) <==> owns_one(
            tickets,
            who,
        ) by {
            if owns_one(rest, who) {
                let i = choose|i: int| 0 <= i < rest.len() && #[trigger] rest[i].owner == who;
                assert(tickets[i].owner == who);
            }
            if owns_one(tickets, who) {
                let i = choose|i: int| 0 <= i < tickets.len() && #[trigger] tickets[i].owner == who;
                if i < rest.len() {
                    assert(rest[i].owner == who);
                }
            }
            if tickets.last().owner == who {
                assert(tickets[tickets.len() - 1].owner == who);
            }
        }
    }
}

proof fn lemma_owners_extended(tickets: Seq<TicketView>, fresh: Seq<TicketView>, buyer: Seq<char>)
    requires
        forall|i: int| 0 <= i < fresh.len() ==> (#[trigger] fresh[i]).owner == buyer,
    ensures
        fresh.len() > 0 ==> owners(tickets + fresh) == owners(tickets).insert(buyer),
    decreases fresh.len(),
{
    if fresh.len() > 0 {
        let rest = fresh.drop_last();
        assert((tickets + fresh).drop_last() =~= tickets + rest);
        assert((tickets + fresh).last() == fresh[fresh.len() - 1]);
        if rest.len() > 0 {
            assert forall|i: int| 0 <= i < rest.len() implies (#[trigger] rest[i]).owner
                == buyer by {
                assert(rest[i] == fresh[i]);
            }
            lemma_owners_extended(tickets, rest, buyer);
            assert(owners(tickets).insert(buyer).insert(buyer) =~= owners(tickets).insert(buyer));
        } else {
            assert(tickets + rest =~= tickets);
        }
    }
}

proof fn lemma_owners_same(a: Seq<TicketView>, b: Seq<TicketView>)
    requires
        a.len() == b.len(),
        forall|i: int| 0 <= i < a.len() ==> (#[trigger] a[i]).owner == b[i].owner,
    ensures
        owners(a) == owners(b),
    decreases a.len(),
{
    if a.len() > 0 {
        assert(a[a.len() - 1].owner == b[a.len() - 1].owner);
        assert forall|i: int| 0 <= i < a.len() - 1 implies (#[trigger] a.drop_last()[i]).owner
            == b.drop_last()[i].owner by {
            assert(a.drop_last()[i] == a[i]);
        }
        lemma_owners_same(a.drop_last(), b.drop_last());
    }
}

/// Before a round is finished there is nothing to pay.
proof fn lemma_undrawn_unclaimed(tickets: Seq<TicketView>)
    requires
        forall|i: int| 0 <= i < tickets.len() ==> undrawn(#[trigger] tickets[i]),
    ensures
        unclaimed(tickets) == 0,
        prize_sum(tickets) == 0,
    decreases tickets.len(),
{
    if tickets.len() > 0 {
        assert(undrawn(tickets[tickets.len() - 1]));
        assert forall|i: int| 0 <= i < tickets.len() - 1 implies undrawn(
            #[trigger] tickets.drop_last()[i],
        ) by {
            assert(tickets.drop_last()[i] == tickets[i]);
        }
        lemma_undrawn_unclaimed(tickets.drop_last());
    }
}

/// What a draw assigns to tickets is what they have to be paid.
pub proof fn lemma_prized_unclaimed(tickets: Seq<TicketView>, matches: Seq<u8>, tiers: PrizeTiers)
    requires
        tickets.len() == matches.len(),
        forall|i: int| 0 <= i < tickets.len() ==> !(#[trigger] tickets[i]).claimed,
    ensures
        unclaimed(prized(tickets, matches, tiers)) == payout_sum(tiers, matches),
        prize_sum(prized(tickets, matches, tiers)) == payout_sum(tiers, matches),
    decreases tickets.len(),
{
    if tickets.len() > 0 {
        let t = tickets.drop_last();
        let m = matches.drop_last();
        assert forall|i: int| 0 <= i < t.len() implies !(#[trigger] t[i]).claimed by {
            assert(t[i] == tickets[i]);
        }
        lemma_prized_unclaimed(t, m, tiers);
        assert(prized(tickets, matches, tiers).drop_last() =~= prized(t, m, tiers));
        assert(!tickets[tickets.len() - 1].claimed);
    }
}

/// What a given-up round refunds is what its tickets have to be paid.
proof fn lemma_refunded_unclaimed(tickets: Seq<TicketView>, refund: nat)
    requires
        forall|i: int| 0 <= i < tickets.len() ==> !(#[trigger] tickets[i]).claimed,
    ensures
        unclaimed(refunded(tickets, refund)) == tickets.len() * refund,
        prize_sum(refunded(tickets, refund)) == tickets.len() * refund,
    decreases tickets.len(),
{
    let n = tickets.len();
    if n > 0 {
        let t = tickets.drop_last();
        assert forall|i: int| 0 <= i < t.len() implies !(#[trigger] t[i]).claimed by {
            assert(t[i] == tickets[i]);
        }
        lemma_refunded_unclaimed(t, refund);
        assert(refunded(tickets, refund).drop_last() =~= refunded(t, refund));
        assert(!tickets[n - 1].claimed);
        assert(n * refund == (n - 1) * refund + refund) by (nonlinear_arith);
    } else {
        assert(n * refund == 0) by (nonlinear_arith)
            requires
                n == 0,
        ;
    }
}

/// Paying a ticket reduces what has to be paid by its prize.
proof fn lemma_paid_unclaimed(tickets: Seq<TicketView>, i: int)
    requires
        0 <= i < tickets.len(),
        !tickets[i].claimed,
    ensures
        unclaimed(tickets) == unclaimed(
            tickets.update(i, TicketView { claimed: true, ..tickets[i] }),
        ) + tickets[i].prize,
        prize_sum(tickets.update(i, TicketView { claimed: true, ..tickets[i] })) == prize_sum(
            tickets,
        ),
    decreases tickets.len(),
{
    let after = tickets.update(i, TicketView { claimed: true, ..tickets[i] });
    if i == tickets.len() - 1 {
        assert(after.drop_last() =~= tickets.drop_last());
    } else {
        lemma_paid_unclaimed(tickets.drop_last(), i);
        assert(after.drop_last() =~= tickets.drop_last().update(
            i,
            TicketView { claimed: true, ..tickets[i] },
        ));
        assert(after.last() == tickets.last());
    }
}

proof fn lemma_same_referrals(s: StateView, t: StateView)
    requires
        referrals_sound(s),
        t.referrer == s.referrer,
        t.earnings == s.earnings,
        t.codes == s.codes,
        t.totals == s.totals,
    ensures
        referrals_sound(t),
{
    assert forall|who: Seq<char>| #[trigger] totals_sound(t, who) by {
        assert(totals_sound(s, who));
    }
}

/// Replacing the ledger of a round by a sound one of the same number and a fitting
/// status keeps everything in order.
proof fn lemma_ledger_replaced(s: StateView, round_id: u64, ledger: LedgerView)
    requires
        sound(s),
        s.has_round(round_id),
        ledger.round.id == s.ledger(round_id).round.id,
        ledger_sound(ledger, s.config.numbers_per_ticket, s.config.number_max),
        ledger.round.status == s.ledger(round_id).round.status || (round_id == s.rounds.len()
            && ledger.round.status == RoundStatus::Drawing),
        same_result(ledger, s.ledger(round_id)),
    ensures
        sound(s.with_ledger(round_id, ledger)),
{
    let t = s.with_ledger(round_id, ledger);
    lemma_same_referrals(s, t);
    assert forall|i: int| 0 <= i < s.rounds.len() implies same_result(
        #[trigger] t.rounds[i],
        s.rounds[i],
    ) by {}
    lemma_streaks_kept(s, t);
    assert forall|i: int| 0 <= i < t.rounds.len() implies #[trigger] in_place(t.rounds, i) by {
        assert(in_place(s.rounds, i));
    }
    assert forall|i: int| 0 <= i < t.rounds.len() implies ledger_sound(
        #[trigger] t.rounds[i],
        t.config.numbers_per_ticket,
        t.config.number_max,
    ) by {
        if i != round_id - 1 {
            assert(t.rounds[i] == s.rounds[i]);
        }
    }
}

proof fn lemma_referees_inserted(
    bindings: Map<Seq<char>, Seq<char>>,
    referee: Seq<char>,
    referrer: Seq<char>,
    who: Seq<char>,
)
    requires
        bindings.dom().finite(),
        !bindings.dom().contains(referee),
    ensures
        referees_of(bindings.insert(referee, referrer), who).len() == referees_of(
            bindings,
            who,
        ).len() + if who == referrer {
            1nat
        } else {
            0nat
        },
{
    let before = referees_of(bindings, who);
    let after = referees_of(bindings.insert(referee, referrer), who);
    bindings.dom().lemma_len_filter(|x: Seq<char>| bindings[x] == who);
    assert(before.finite());
    if who == referrer {
        assert(after =~= before.insert(referee));
    } else {
        assert(after =~= before);
    }
}

proof fn lemma_bound_sound(s: StateView, referee: Seq<char>, referrer: Seq<char>)
    requires
        referrals_sound(s),
        !s.referrer.dom().contains(referee),
        referee != referrer,
    ensures
        referrals_sound(bound(s, referee, referrer)),
{
    let t = bound(s, referee, referrer);
    assert forall|who: Seq<char>| #[trigger] totals_sound(t, who) by {
        assert(totals_sound(s, who));
        lemma_referees_inserted(s.referrer, referee, referrer, who);
    }
    assert forall|who: Seq<char>| t.referrer.dom().contains(who) implies #[trigger] t.referrer[who]
        != who by {
        if who != referee {
            assert(s.referrer.dom().contains(who));
            assert(s.referrer[who] != who);
        }
    }
}

proof fn lemma_credited_sound(s: StateView, referrer: Seq<char>, amount: nat)
    requires
        referrals_sound(s),
        credit_refusal(s, referrer, amount) is None,
    ensures
        referrals_sound(credited(s, referrer, amount)),
{
    let t = credited(s, referrer, amount);
    assert forall|who: Seq<char>| #[trigger] totals_sound(t, who) by {
        assert(totals_sound(s, who));
    }
}

proof fn lemma_referred_sound(
    s: StateView,
    buyer: Seq<char>,
    code: Option<Seq<char>>,
    amount: nat,
)
    requires
        referrals_sound(s),
        buyer_referrer(s, buyer, code) matches Some(r) ==> amount == 0 || credit_refusal(
            s,
            r,
            amount,
        ) is None,
    ensures
        referrals_sound(referred(s, buyer, buyer_referrer(s, buyer, code), amount)),
{
    match buyer_referrer(s, buyer, code) {
        None => {},
        Some(r) => {
            let b = if s.referrer.dom().contains(buyer) {
                s
            } else {
                bound(s, buyer, r)
            };
            if !s.referrer.dom().contains(buyer) {
                lemma_bound_sound(s, buyer, r);
            }
            if amount > 0 {
                lemma_credited_sound(b, r, amount);
            }
        },
    }
}

proof fn lemma_capped(n: nat)
    ensures
        count_up(capped(n)) == capped(n + 1),
{
}

proof fn lemma_sold_sound(
    s: StateView,
    env: Env,
    buyer: Seq<char>,
    count: u32,
    numbers: Option<Seq<u8>>,
    free: bool,
    added: nat,
)
    requires
        sound(s),
        count > 0,
        s.rounds.last().round.status == RoundStatus::Open,
        s.rounds.last().round.pool + added <= u128::MAX,
        first_picks_refusal(s, numbers) is None,
    ensures
        ledger_sound(
            sold(
                s.rounds.last(),
                buyer,
                bought_tickets(s, env, buyer, count, numbers, free),
                added,
            ),
            s.config.numbers_per_ticket,
            s.config.number_max,
        ),
{
    let before = s.rounds.last();
    let fresh = bought_tickets(s, env, buyer, count, numbers, free);
    let after = sold(before, buyer, fresh, added);
    let n = s.config.numbers_per_ticket;
    let max = s.config.number_max;
    assert(before == s.rounds[s.rounds.len() - 1]);
    lemma_owners(before.tickets);
    lemma_owners_extended(before.tickets, fresh, buyer);
    lemma_capped(owners(before.tickets).len());
    if owns_one(before.tickets, buyer) {
        assert(owners(before.tickets).insert(buyer) =~= owners(before.tickets));
    }
    assert forall|i: int| 0 <= i < after.tickets.len() implies valid_picks(
        (#[trigger] after.tickets[i]).numbers,
        n,
        max,
    ) && undrawn(after.tickets[i]) by {
        let first = before.tickets.len();
        if i < first {
            assert(after.tickets[i] == before.tickets[i]);
        } else {
            let j = i - first;
            assert(after.tickets[i] == fresh[j]);
            if j == 0 && numbers is Some {
                law_accepted_picks_are_valid(numbers->0, n, max);
            } else {
                lemma_quick_pick_valid(s, env, buyer, numbers, j);
            }
        }
    }
    lemma_undrawn_unclaimed(after.tickets);
    lemma_entropy_joined(no_entropy(), 0, before.tickets, fresh);
}

proof fn lemma_quick_pick_valid(
    s: StateView,
    env: Env,
    buyer: Seq<char>,
    numbers: Option<Seq<u8>>,
    i: int,
)
    requires
        s.config.domain_ok(),
        i != 0 || numbers is None,
    ensures
        valid_picks(
            bought_picks(s, env, buyer, numbers, i),
            s.config.numbers_per_ticket,
            s.config.number_max,
        ),
{
    let n = s.config.numbers_per_ticket;
    let max = s.config.number_max;
    assert forall|seed: u64| valid_picks(#[trigger] picked(seed, n, max), n, max) by {
        law_picked_numbers_are_valid(seed, n, max);
    }
}

proof fn lemma_buy_sound(
    s: StateView,
    env: Env,
    info: InfoView,
    count: u32,
    numbers: Option<Seq<u8>>,
    code: Option<Seq<char>>,
)
    requires
        sound(s),
    ensures
        sound(state_after(s, buy_outcome(s, env, info, count, numbers, code))),
{
    if buy_refusal(s, info, count, numbers, code) is None {
        let total = price_of(s, count);
        let split = s.config.split;
        let referral = split.referral_of(total);
        let buyer = info.sender;
        let added = pool_share(s, buyer, code, total);
        lemma_sold_sound(s, env, buyer, count, numbers, false, added);
        let paid = StateView { treasury: s.treasury + split.treasury_of(total), ..s };
        lemma_same_referrals(s, paid);
        assert forall|i: int| 0 <= i < paid.rounds.len() implies #[trigger] in_place(
            paid.rounds,
            i,
        ) by {
            assert(in_place(s.rounds, i));
        }
        assert(sound(paid));
        assert(in_place(s.rounds, s.rounds.len() - 1));
        let ledger = sold(
            s.rounds.last(),
            buyer,
            bought_tickets(s, env, buyer, count, numbers, false),
            added,
        );
        lemma_ledger_replaced(paid, s.current(), ledger);
        let middle = paid.with_ledger(s.current(), ledger);
        let end = bought(s, env, buyer, count, numbers, code);
        assert(buyer_referrer(middle, buyer, code) == buyer_referrer(s, buyer, code));
        assert(buyer_referrer(s, buyer, code) matches Some(r) ==> referral == 0 || credit_refusal(
            middle,
            r,
            referral,
        ) is None);
        lemma_referred_sound(middle, buyer, code, referral);
        assert(referrals_sound(end));
        assert(end.rounds == middle.rounds);
        assert(sound(end));
    }
}

proof fn lemma_grant_sound(
    s: StateView,
    env: Env,
    info: InfoView,
    owner: AddrView,
    count: u32,
    numbers: Option<Seq<u8>>,
)
    requires
        sound(s),
    ensures
        sound(state_after(s, grant_outcome(s, env, info, owner, count, numbers))),
{
    if grant_refusal(s, info, owner, count, numbers) is None {
        let who = owner.verdict->Ok_0;
        let added = price_of(s, count);
        lemma_sold_sound(s, env, who, count, numbers, true, added);
        assert(in_place(s.rounds, s.rounds.len() - 1));
        lemma_ledger_replaced(
            s,
            s.current(),
            sold(
                s.rounds.last(),
                who,
                bought_tickets(s, env, who, count, numbers, true),
                added,
            ),
        );
    }
}

proof fn lemma_close_sound(s: StateView, env: Env)
    requires
        sound(s),
    ensures
        sound(state_after(s, close_outcome(s, env))),
{
    if close_refusal(s, env) is None {
        assert(in_place(s.rounds, s.rounds.len() - 1));
        assert(s.ledger(s.current()) == s.rounds.last());
        let ledger = closed(
            s.rounds.last(),
            beacon_round_of(s.config, s.rounds.last().round),
        );
        lemma_ledger_replaced(s, s.current(), ledger);
    }
}

proof fn lemma_request_sound(s: StateView, round_id: u64, request: RequestView)
    requires
        sound(s),
        pending_refusal(s, round_id) is None,
        request_sound(request, round_id),
    ensures
        sound(with_request(s, round_id, request)),
{
    assert(in_place(s.rounds, round_id - 1));
    let before = s.ledger(round_id);
    let ledger = LedgerView { randomness: Some(request), ..before };
    assert(ledger_sound(before, s.config.numbers_per_ticket, s.config.number_max));
    assert(before.round.status == RoundStatus::Drawing);
    lemma_ledger_replaced(s, round_id, ledger);
}

proof fn lemma_draw_sound(s: StateView, env: Env, round_id: u64)
    requires
        sound(s),
    ensures
        sound(state_after(s, draw_outcome(s, env, round_id))),
{
    if draw_refusal(s, env, round_id) is None {
        let n = s.config.numbers_per_ticket;
        let max = s.config.number_max;
        assert(in_place(s.rounds, round_id - 1));
        let before = s.ledger(round_id);
        assert(ledger_sound(before, n, max));
        let d = draw_of(s, round_id);
        let after = settled(before, d);
        let next = next_ledger(s, env, round_id, d.rollover);
        let t = drawn(s, env, round_id);
        law_prizes_never_exceed_pool(before.round.pool, d.matches, d.forced);
        assert forall|i: int| 0 <= i < before.tickets.len() implies !(
        #[trigger] before.tickets[i]).claimed by {
            assert(undrawn(before.tickets[i]));
        }
        lemma_prized_unclaimed(before.tickets, d.matches, d.tiers);
        lemma_owners_same(after.tickets, before.tickets);
        lemma_entropy_same(no_entropy(), 0, after.tickets, before.tickets);
        assert(after.tickets.len() == before.tickets.len());
        assert forall|i: int| 0 <= i < after.tickets.len() implies valid_picks(
            (#[trigger] after.tickets[i]).numbers,
            n,
            max,
        ) && evaluated(after.tickets[i], d.winning, d.tiers) by {
            assert(undrawn(before.tickets[i]));
        }
        assert(drawable(after) == drawable(before));
        assert(ledger_sound(after, n, max));
        assert(Seq::new(after.tickets.len(), |i: int| after.tickets[i].matches) =~= d.matches);
        assert(moves_streak(after, s.dry_streak));
        lemma_owners(next.tickets);
        assert(owners(next.tickets).len() == 0);
        assert(ledger_sound(next, n, max));
        lemma_round_finished(s, t, round_id, after, next);
    }
}

/// Finishing the current round and opening the next one keeps everything in order.
proof fn lemma_round_finished(
    s: StateView,
    t: StateView,
    round_id: u64,
    after: LedgerView,
    next: LedgerView,
)
    requires
        sound(s),
        s.has_round(round_id),
        s.ledger(round_id).round.status == RoundStatus::Drawing,
        round_id < u64::MAX,
        t.rounds == s.rounds.update(round_id - 1, after).push(next),
        t == (StateView { rounds: t.rounds, dry_streak: t.dry_streak, ..s }),
        if after.round.status == RoundStatus::Settled {
            t.dry_streak == after.round.dry_streak_after && moves_streak(after, s.dry_streak)
        } else {
            t.dry_streak == s.dry_streak
        },
        after.round.id == round_id,
        after.round.status == RoundStatus::Settled || after.round.status == RoundStatus::Cancelled,
        next.round.id == round_id + 1,
        ledger_sound(after, s.config.numbers_per_ticket, s.config.number_max),
        ledger_sound(next, s.config.numbers_per_ticket, s.config.number_max),
        next.round.status == RoundStatus::Open,
    ensures
        sound(t),
{
    lemma_same_referrals(s, t);
    assert(in_place(s.rounds, round_id - 1));
    lemma_streak_after_round(s, t, after, next);
    assert forall|i: int| 0 <= i < t.rounds.len() implies #[trigger] in_place(t.rounds, i) by {
        if i < s.rounds.len() {
            assert(in_place(s.rounds, i));
        }
    }
    assert forall|i: int| 0 <= i < t.rounds.len() implies ledger_sound(
        #[trigger] t.rounds[i],
        s.config.numbers_per_ticket,
        s.config.number_max,
    ) by {
        if i < s.rounds.len() && i != round_id - 1 {
            assert(t.rounds[i] == s.rounds[i]);
        }
    }
}

proof fn lemma_cancel_sound(s: StateView, env: Env, sender: Seq<char>, round_id: u64)
    requires
        sound(s),
    ensures
        sound(state_after(s, cancel_outcome(s, env, sender, round_id))),
{
    if cancel_refusal(s, env, sender, round_id) is None {
        let n = s.config.numbers_per_ticket;
        let max = s.config.number_max;
        let roll_over = s.config.rollover_on_no_winner;
        assert(in_place(s.rounds, round_id - 1));
        let before = s.ledger(round_id);
        assert(ledger_sound(before, n, max));
        let refund = refund_of(before);
        let after = cancelled(before, roll_over);
        let next = next_ledger(s, env, round_id, refund_rest(before, roll_over));
        lemma_refunds_fit(before);
        assert forall|i: int| 0 <= i < before.tickets.len() implies !(
        #[trigger] before.tickets[i]).claimed by {
            assert(undrawn(before.tickets[i]));
        }
        lemma_refunded_unclaimed(before.tickets, refund);
        lemma_owners_same(after.tickets, before.tickets);
        lemma_entropy_same(no_entropy(), 0, after.tickets, before.tickets);
        assert(after.tickets.len() == before.tickets.len());
        assert forall|i: int| 0 <= i < after.tickets.len() implies valid_picks(
            (#[trigger] after.tickets[i]).numbers,
            n,
            max,
        ) && reimbursed(after.tickets[i], refund) by {
            assert(undrawn(before.tickets[i]));
        }
        assert(all_reimbursed(after.tickets, refund));
        assert(ledger_sound(after, n, max));
        lemma_owners(next.tickets);
        assert(owners(next.tickets).len() == 0);
        assert(ledger_sound(next, n, max));
        lemma_round_finished(s, after_cancel(s, env, round_id), round_id, after, next);
    }
}

proof fn lemma_claim_sound(s: StateView, sender: Seq<char>, round_id: u64, id: Seq<char>)
    requires
        sound(s),
    ensures
        sound(state_after(s, claim_outcome(s, sender, round_id, id))),
{
    if claim_refusal(s, sender, round_id, id) is None {
        let n = s.config.numbers_per_ticket;
        let max = s.config.number_max;
        let before = s.ledger(round_id);
        assert(ledger_sound(before, n, max));
        let i = named_ticket(id, before.tickets.len())->0;
        assert(names_ticket(id, before.tickets.len(), i));
        let after = paid_out(before, i);
        let status = before.round.status;
        assert(status == RoundStatus::Settled || status == RoundStatus::Cancelled) by {
            if status == RoundStatus::Open || status == RoundStatus::Drawing {
                assert(undrawn(before.tickets[i]));
            }
        }
        lemma_paid_unclaimed(before.tickets, i);
        lemma_owners_same(after.tickets, before.tickets);
        lemma_entropy_same(no_entropy(), 0, after.tickets, before.tickets);
        assert(after.tickets.len() == before.tickets.len());
        assert forall|j: int| 0 <= j < after.tickets.len() implies valid_picks(
            (#[trigger] after.tickets[j]).numbers,
            n,
            max,
        ) by {
            assert(valid_picks(before.tickets[j].numbers, n, max));
        }
        if status == RoundStatus::Settled {
            let winning = before.round.winning_numbers->0;
            let tiers = before.round.prize_tiers;
            assert forall|j: int| 0 <= j < after.tickets.len() implies evaluated(
                #[trigger] after.tickets[j],
                winning,
                tiers,
            ) by {
                assert(evaluated(before.tickets[j], winning, tiers));
            }
        } else {
            let refund = choose|refund: nat| #[trigger] all_reimbursed(before.tickets, refund);
            assert forall|j: int| 0 <= j < after.tickets.len() implies reimbursed(
                #[trigger] after.tickets[j],
                refund,
            ) by {
                assert(reimbursed(before.tickets[j], refund));
            }
            assert(all_reimbursed(after.tickets, refund));
        }
        assert(drawable(after) == drawable(before));
        assert(Seq::new(after.tickets.len(), |j: int| after.tickets[j].matches) =~= Seq::new(
            before.tickets.len(),
            |j: int| before.tickets[j].matches,
        ));
        lemma_ledger_replaced(s, round_id, after);
    }
}

proof fn lemma_referral_steps_sound(s: StateView, sender: Seq<char>)
    requires
        sound(s),
    ensures
        sound(state_after(s, claim_referral_outcome(s, sender))),
{
    if claim_referral_refusal(s, sender) is None {
        let t = referral_paid(s, sender);
        assert forall|who: Seq<char>| #[trigger] totals_sound(t, who) by {
            assert(totals_sound(s, who));
        }
    }
}

proof fn lemma_bind_sound(
    s: StateView,
    sender: Seq<char>,
    referrer: Option<AddrView>,
    code: Option<Seq<char>>,
    normal: Option<Seq<char>>,
)
    requires
        sound(s),
    ensures
        sound(state_after(s, bind_outcome(s, sender, referrer, code, normal))),
{
    if bind_refusal(s, sender, referrer, code, normal) is None {
        let r = requested_referrer(s, referrer, code, normal)->Ok_0;
        lemma_bound_sound(s, sender, r);
    }
}

proof fn lemma_register_sound(s: StateView, sender: Seq<char>, normal: Seq<char>)
    requires
        sound(s),
    ensures
        sound(state_after(s, register_outcome(s, sender, normal))),
{
    if register_refusal(s, sender, normal) is None {
        let t = StateView { codes: s.codes.insert(normal, sender), ..s };
        assert forall|who: Seq<char>| #[trigger] totals_sound(t, who) by {
            assert(totals_sound(s, who));
        }
    }
}

proof fn lemma_submit_sound(
    s: StateView,
    sender: Seq<char>,
    round_id: u64,
    randomness: Seq<u8>,
    signature: Option<Seq<u8>>,
    digest: Seq<u8>,
    pairing: PairingAnswer<Seq<char>>,
)
    requires
        sound(s),
    ensures
        sound(
            state_after(
                s,
                submit_outcome(s, sender, round_id, randomness, signature, digest, pairing),
            ),
        ),
{
    if submit_refusal(s, sender, round_id, randomness, signature, digest, pairing) is None {
        assert(in_place(s.rounds, round_id - 1));
        assert(ledger_sound(
            s.ledger(round_id),
            s.config.numbers_per_ticket,
            s.config.number_max,
        ));
        let request = s.ledger(round_id).randomness->0;
        lemma_request_sound(
            s,
            round_id,
            RequestView {
                status: RandomnessStatus::Fulfilled,
                randomness: Some(randomness),
                signature,
                ..request
            },
        );
    }
}

proof fn lemma_commit_sound(
    s: StateView,
    env: Env,
    sender: Seq<char>,
    round_id: u64,
    commitment: Seq<u8>,
)
    requires
        sound(s),
    ensures
        sound(state_after(s, commit_outcome(s, env, sender, round_id, commitment))),
{
    if commit_refusal(s, sender, round_id, commitment) is None {
        assert(in_place(s.rounds, round_id - 1));
        assert(ledger_sound(
            s.ledger(round_id),
            s.config.numbers_per_ticket,
            s.config.number_max,
        ));
        let request = s.ledger(round_id).randomness->0;
        lemma_request_sound(
            s,
            round_id,
            RequestView {
                status: RandomnessStatus::Committed,
                commitment: Some(commitment),
                committer: Some(sender),
                commit_height: Some(env.height),
                reveal_deadline: Some(reveal_deadline(s, env)),
                ..request
            },
        );
    }
}

proof fn lemma_reveal_sound(s: StateView, sender: Seq<char>, round_id: u64, digest: Seq<u8>)
    requires
        sound(s),
    ensures
        sound(state_after(s, reveal_outcome(s, sender, round_id, digest))),
{
    if reveal_refusal(s, sender, round_id, digest) is None {
        assert(in_place(s.rounds, round_id - 1));
        assert(ledger_sound(
            s.ledger(round_id),
            s.config.numbers_per_ticket,
            s.config.number_max,
        ));
        let request = s.ledger(round_id).randomness->0;
        lemma_request_sound(
            s,
            round_id,
            RequestView {
                status: RandomnessStatus::Fulfilled,
                randomness: Some(digest),
                ..request
            },
        );
    }
}

/// A state in which nothing but the configuration's switches or the treasury
/// differs from a sound one is sound.
proof fn lemma_config_replaced(s: StateView, t: StateView)
    requires
        sound(s),
        t.rounds == s.rounds,
        t.dry_streak == s.dry_streak,
        t.referrer == s.referrer,
        t.earnings == s.earnings,
        t.codes == s.codes,
        t.totals == s.totals,
        t.treasury <= u128::MAX,
        config_sound(t.config),
        t.config.numbers_per_ticket == s.config.numbers_per_ticket,
        t.config.number_max == s.config.number_max,
    ensures
        sound(t),
{
    lemma_same_referrals(s, t);
}

/// Whether the rules of the game hold in a change and the number domain is the one
/// of the configuration that it started from.
spec fn keeps_rules(c: ChangeView, config: ConfigView) -> bool {
    &&& rules_refusal(c.config) is None
    &&& c.config.numbers_per_ticket == config.numbers_per_ticket
    &&& c.config.number_max == config.number_max
}

proof fn lemma_priced_keeps_rules(c: ChangeView, args: SetConfigArgs, config: ConfigView)
    requires
        keeps_rules(c, config),
    ensures
        admin_changed(c, addr_option_view(args.admin)) matches Ok(d) ==> keeps_rules(d, config),
        price_changed(c, coin_option_view(args.ticket_price)) matches Ok(d) ==> keeps_rules(
            d,
            config,
        ),
        interval_changed(c, args.draw_interval) matches Ok(d) ==> keeps_rules(d, config),
        split_changed(c, args.split) matches Ok(d) ==> keeps_rules(d, config),
{
}

proof fn lemma_switched_keeps_rules(c: ChangeView, args: SetConfigArgs, config: ConfigView)
    requires
        keeps_rules(c, config),
    ensures
        keeps_rules(switches_changed(c, args), config),
{
    lemma_switches_keep_game(c, args);
}

proof fn lemma_roster_keeps_rules(c: ChangeView, args: SetConfigArgs, config: ConfigView)
    requires
        keeps_rules(c, config),
    ensures
        submitters_added(c, names_view(args.add_submitters)) matches Ok(d) ==> keeps_rules(
            d,
            config,
        ),
        submitters_removed(c, names_view(args.remove_submitters)) matches Ok(d) ==> keeps_rules(
            d,
            config,
        ),
{
}

proof fn lemma_changed_keeps_rules(config: ConfigView, args: SetConfigArgs)
    requires
        rules_refusal(config) is None,
    ensures
        changed(config, args) matches Ok(c) ==> keeps_rules(c, config),
{
    if changed(config, args) is Ok {
        let start = ChangeView { config, changed: Seq::empty() };
        lemma_priced_keeps_rules(start, args, config);
        let a = admin_changed(start, addr_option_view(args.admin))->Ok_0;
        lemma_priced_keeps_rules(a, args, config);
        let b = price_changed(a, coin_option_view(args.ticket_price))->Ok_0;
        lemma_priced_keeps_rules(b, args, config);
        let c = interval_changed(b, args.draw_interval)->Ok_0;
        lemma_priced_keeps_rules(c, args, config);
        let d = split_changed(c, args.split)->Ok_0;
        lemma_switched_keeps_rules(d, args, config);
        let e = switches_changed(d, args);
        lemma_roster_keeps_rules(e, args, config);
        let f = submitters_added(e, names_view(args.add_submitters))->Ok_0;
        lemma_roster_keeps_rules(f, args, config);
    }
}

/// Putting the beacon's clock in order completes a configuration.
proof fn lemma_clock_completes(config: ConfigView)
    requires
        rules_refusal(config) is None,
        randomness_config_refusal(config) is None,
    ensures
        config_sound(with_beacon_clock(config)),
        with_beacon_clock(config).numbers_per_ticket == config.numbers_per_ticket,
        with_beacon_clock(config).number_max == config.number_max,
{
    let c = with_beacon_clock(config);
    assert(with_beacon_clock(c) =~= c);
    assert(rules_refusal(c) == rules_refusal(config));
    assert(randomness_config_refusal(c) == randomness_config_refusal(config));
}

/// A state with another configuration, its beacon's clock put in order, is sound.
proof fn lemma_reconfigured(s: StateView, config: ConfigView)
    requires
        sound(s),
        rules_refusal(config) is None,
        randomness_config_refusal(config) is None,
        config.numbers_per_ticket == s.config.numbers_per_ticket,
        config.number_max == s.config.number_max,
    ensures
        sound(StateView { config: with_beacon_clock(config), ..s }),
{
    lemma_clock_completes(config);
    lemma_config_replaced(s, StateView { config: with_beacon_clock(config), ..s });
}

proof fn lemma_set_config_sound(s: StateView, sender: Seq<char>, args: SetConfigArgs)
    requires
        sound(s),
    ensures
        sound(state_after(s, set_config_outcome(s, sender, args))),
{
    let change = changed(s.config, args);
    if set_config_outcome(s, sender, args) is Ok {
        lemma_changed_keeps_rules(s.config, args);
        lemma_reconfigured(s, change->Ok_0.config);
    }
}

/// A new contract starts in a sound state.
pub proof fn law_new_contract_is_sound(env: Env, info: InfoView, msg: InstantiateMsg)
    ensures
        instantiate_outcome(env, info, msg) matches Ok((state, _)) ==> sound(state),
{
    if instantiate_refusal(env, info, msg) is None {
        let config = requested_config(info, msg);
        let t = fresh_state(env, config);
        lemma_owners(t.rounds[0].tickets);
        assert(owners(t.rounds[0].tickets).len() == 0);
        assert(in_place(t.rounds, 0));
        assert(streak_through(t.rounds, 1) == streak_through(t.rounds, 0));
        assert forall|who: Seq<char>| #[trigger] totals_sound(t, who) by {
            assert(referees_of(t.referrer, who) =~= Set::<Seq<char>>::empty());
        }
    }
}

/// Every request, accepted or refused, leads from a sound state to a sound one.
pub proof fn law_requests_keep_soundness(s: StateView, env: Env, info: InfoView, msg: ExecuteMsg)
    requires
        sound(s),
    ensures
        sound(state_after(s, execute_outcome(s, env, info, msg))),
{
    let sender = info.sender;
    match msg {
        ExecuteMsg::BuyTickets { count, numbers, referral_code } => {
            lemma_buy_sound(
                s,
                env,
                info,
                count,
                bytes_view(numbers),
                normal_form(text_view(referral_code)),
            );
        },
        ExecuteMsg::GrantBonusTicket { owner, count, numbers } => {
            lemma_grant_sound(s, env, info, owner@, count, bytes_view(numbers));
        },
        ExecuteMsg::CloseRound {  } => {
            lemma_close_sound(s, env);
        },
        ExecuteMsg::SubmitRandomness { round_id, randomness, signature, pairing } => {
            lemma_submit_sound(
                s,
                sender,
                round_id,
                randomness@,
                bytes_view(signature),
                signature_digest(bytes_view(signature)),
                pairing@,
            );
        },
        ExecuteMsg::CommitRandomness { round_id, commitment } => {
            lemma_commit_sound(s, env, sender, round_id, commitment@);
        },
        ExecuteMsg::RevealRandomness { round_id, value } => {
            lemma_reveal_sound(s, sender, round_id, sha256_digest(value@));
        },
        ExecuteMsg::Draw { round_id } => {
            lemma_draw_sound(s, env, round_id);
        },
        ExecuteMsg::CancelRound { round_id } => {
            lemma_cancel_sound(s, env, sender, round_id);
        },
        ExecuteMsg::ClaimReward { round_id, ticket_id } => {
            lemma_claim_sound(s, sender, round_id, ticket_id@);
        },
        ExecuteMsg::BindReferrer { referrer, code } => {
            lemma_bind_sound(
                s,
                sender,
                addr_option_view(referrer),
                text_view(code),
                normal_form(text_view(code)),
            );
        },
        ExecuteMsg::RegisterCode { code } => {
            lemma_register_sound(s, sender, normalized(code@));
        },
        ExecuteMsg::ClaimReferral {  } => {
            lemma_referral_steps_sound(s, sender);
        },
        ExecuteMsg::WithdrawTreasury { to, amount } => {
            if withdraw_refusal(s, sender, to@, amount) is None {
                lemma_config_replaced(s, state_after(s, withdraw_outcome(s, sender, to@, amount)));
            }
        },
        ExecuteMsg::SetConfig {
            admin,
            ticket_price,
            draw_interval,
            split,
            rollover_on_no_winner,
            randomness_mode,
            verify_mode,
            drand_pubkey,
            drand_chain_hash,
            drand_genesis_time,
            drand_period,
            min_claim_usaf,
            reveal_timeout,
            open_code_registration,
            max_dry_rounds,
            add_submitters,
            remove_submitters,
        } => {
            lemma_set_config_sound(
                s,
                sender,
                SetConfigArgs {
                    admin,
                    ticket_price,
                    draw_interval,
                    split,
                    rollover_on_no_winner,
                    randomness_mode,
                    verify_mode,
                    drand_pubkey,
                    drand_chain_hash,
                    drand_genesis_time,
                    drand_period,
                    min_claim_usaf,
                    reveal_timeout,
                    open_code_registration,
                    max_dry_rounds,
                    add_submitters,
                    remove_submitters,
                },
            );
        },
        ExecuteMsg::Pause {  } => {
            lemma_config_replaced(s, state_after(s, pause_outcome(s, sender, true)));
        },
        ExecuteMsg::Unpause {  } => {
            lemma_config_replaced(s, state_after(s, pause_outcome(s, sender, false)));
        },
    }
}

/// A migration keeps a sound state sound.
pub proof fn law_migration_keeps_soundness(s: StateView)
    requires
        sound(s),
    ensures
        sound(state_after(s, migrate_outcome(s))),
{
    lemma_config_replaced(s, state_after(s, migrate_outcome(s)));
}

} // verus!
