//! Where the contract's money is: everything that is paid in the contract's
//! denomination belongs to the treasury, to a pool or to a referrer until it is sent
//! out.

use crate::beacon::bytes_view;
use crate::cancel::{after_cancel, cancelled, lemma_refunds_fit, refund_rest};
use crate::contract::execute_outcome;
use crate::host::{text_view, AddrView, Env, InfoView};
use crate::money::{all_of, amount_of, law_payment_counts_one_denom, CoinView};
use crate::msg::ExecuteMsg;
use crate::outcome::state_after;
use crate::prizes::law_prizes_never_exceed_pool;
use crate::referral::normal_form;
use crate::response::{sent_by, EventView, ResponseView, SendView};
use crate::rounds::{draw_of, draw_outcome, draw_refusal, drawn, next_ledger, paid_out, settled};
use crate::sales::{
    bought, bought_tickets, buy_outcome, grant_outcome, paid_referrer, pool_share, price_of, sold,
};
use crate::soundness::{ledger_sound, lemma_prized_unclaimed, sound, unclaimed, undrawn};
use crate::split::law_split_conserves;
use crate::state::{in_place, LedgerView, StateView};
use crate::ticket_ids::named_ticket;
use vstd::prelude::*;

verus! {

/// What the pools of some rounds hold together.
pub open spec fn pools(rounds: Seq<LedgerView>) -> nat
    decreases rounds.len(),
{
    if rounds.len() == 0 {
        0
    } else {
        pools(rounds.drop_last()) + rounds.last().round.pool
    }
}

/// What referrers are owed together.
pub open spec fn owed(earnings: Map<Seq<char>, u128>) -> nat
    decreases earnings.dom().len(),
    when earnings.dom().finite()
{
    if earnings.dom().len() == 0 {
        0
    } else {
        let who = earnings.dom().choose();
        earnings[who] as nat + owed(earnings.remove(who))
    }
}

/// Everything that the contract accounts for.
pub open spec fn held(s: StateView) -> nat {
    s.treasury + pools(s.rounds) + owed(s.earnings)
}

/// What a request pays for tickets, in the contract's denomination.
pub open spec fn taken_in(s: StateView, info: InfoView, msg: ExecuteMsg) -> nat {
    match msg {
        ExecuteMsg::BuyTickets { .. } => amount_of(info.funds, s.config.denom),
        ExecuteMsg::GrantBonusTicket { .. } => amount_of(info.funds, s.config.denom),
        _ => 0,
    }
}

proof fn lemma_pools_updated(rounds: Seq<LedgerView>, i: int, ledger: LedgerView)
    requires
        0 <= i < rounds.len(),
    ensures
        pools(rounds.update(i, ledger)) + rounds[i].round.pool == pools(rounds)
            + ledger.round.pool,
    decreases rounds.len(),
{
    let after = rounds.update(i, ledger);
    if i == rounds.len() - 1 {
        assert(after.drop_last() =~= rounds.drop_last());
    } else {
        lemma_pools_updated(rounds.drop_last(), i, ledger);
        assert(after.drop_last() =~= rounds.drop_last().update(i, ledger));
        assert(after.last() == rounds.last());
    }
}

proof fn lemma_owed_without(earnings: Map<Seq<char>, u128>, who: Seq<char>)
    requires
        earnings.dom().finite(),
        earnings.dom().contains(who),
    ensures
        owed(earnings) == earnings[who] + owed(earnings.remove(who)),
    decreases earnings.dom().len(),
{
    let first = earnings.dom().choose();
    assert(earnings.dom().len() > 0);
    if first != who {
        let rest = earnings.remove(first);
        lemma_owed_without(rest, who);
        let other = earnings.remove(who);
        assert(other.dom().contains(first));
        lemma_owed_without(other, first);
        assert(rest.remove(who) =~= other.remove(first));
    }
}

proof fn lemma_owed_inserted(earnings: Map<Seq<char>, u128>, who: Seq<char>, amount: u128)
    requires
        earnings.dom().finite(),
    ensures
        owed(earnings.insert(who, amount)) + (if earnings.dom().contains(who) {
            earnings[who] as nat
        } else {
            0
        }) == owed(earnings) + amount,
{
    let after = earnings.insert(who, amount);
    lemma_owed_without(after, who);
    if earnings.dom().contains(who) {
        lemma_owed_without(earnings, who);
        assert(after.remove(who) =~= earnings.remove(who));
    } else {
        assert(after.remove(who) =~= earnings);
    }
}

/// What a reply sends that pays one coin, and one that pays none.
pub proof fn lemma_sent(to: Seq<char>, coin: CoinView, event: EventView, denom: Seq<char>)
    ensures
        ResponseView::paying(to, coin, event).sent(denom) == if coin.denom == denom {
            coin.amount as nat
        } else {
            0
        },
        ResponseView::recording(event).sent(denom) == 0,
{
    let amount = seq![coin];
    assert(amount.drop_last() =~= Seq::<CoinView>::empty());
    assert(amount_of(amount.drop_last(), denom) == 0);
    let messages = seq![SendView { to_address: to, amount }];
    assert(messages.drop_last() =~= Seq::<SendView>::empty());
    assert(sent_by(messages.drop_last(), denom) == 0);
}

/// All that a buyer pays is accounted for: the payment is the price of the
/// tickets, and what the treasury, the pool and the referral ledger gain is the
/// payment.
pub proof fn law_purchase_is_accounted(
    s: StateView,
    env: Env,
    info: InfoView,
    count: u32,
    numbers: Option<Seq<u8>>,
    code: Option<Seq<char>>,
)
    requires
        sound(s),
        buy_outcome(s, env, info, count, numbers, code) is Ok,
    ensures
        ({
            let next = state_after(s, buy_outcome(s, env, info, count, numbers, code));
            let total = price_of(s, count);
            &&& all_of(info.funds, s.config.denom)
            &&& amount_of(info.funds, s.config.denom) == total
            &&& next.treasury == s.treasury + s.config.split.treasury_of(total)
            &&& (next.treasury - s.treasury) + (next.rounds.last().round.pool
                - s.rounds.last().round.pool) + (owed(next.earnings) - owed(s.earnings)) == total
            &&& held(next) == held(s) + total
        }),
{
    let total = price_of(s, count);
    let split = s.config.split;
    let referral = split.referral_of(total);
    let buyer = info.sender;
    law_payment_counts_one_denom(info.funds, s.config.denom);
    law_split_conserves(split, total);
    let ledger = sold(
        s.rounds.last(),
        buyer,
        bought_tickets(s, env, buyer, count, numbers, false),
        pool_share(s, buyer, code, total),
    );
    lemma_pools_updated(s.rounds, s.rounds.len() - 1, ledger);
    assert(in_place(s.rounds, s.rounds.len() - 1));
    let end = bought(s, env, buyer, count, numbers, code);
    assert(end.rounds == s.rounds.update(s.rounds.len() - 1, ledger));
    match paid_referrer(s, buyer, code, referral) {
        None => {},
        Some(r) => {
            lemma_owed_inserted(s.earnings, r, (s.earned(r) + referral) as u128);
        },
    }
}

/// All that is paid for bonus tickets joins the pool; neither the treasury nor a
/// referrer has a part in it.
pub proof fn law_grant_funds_the_pool(
    s: StateView,
    env: Env,
    info: InfoView,
    owner: AddrView,
    count: u32,
    numbers: Option<Seq<u8>>,
)
    requires
        s.wf(),
        grant_outcome(s, env, info, owner, count, numbers) is Ok,
    ensures
        ({
            let next = state_after(s, grant_outcome(s, env, info, owner, count, numbers));
            let total = price_of(s, count);
            &&& all_of(info.funds, s.config.denom)
            &&& amount_of(info.funds, s.config.denom) == total
            &&& next.rounds.last().round.pool == s.rounds.last().round.pool + total
            &&& next.treasury == s.treasury
            &&& next.earnings == s.earnings
            &&& held(next) == held(s) + total
        }),
{
    let who = owner.verdict->Ok_0;
    law_payment_counts_one_denom(info.funds, s.config.denom);
    let ledger = sold(
        s.rounds.last(),
        who,
        bought_tickets(s, env, who, count, numbers, true),
        price_of(s, count),
    );
    assert(in_place(s.rounds, s.rounds.len() - 1));
    lemma_pools_updated(s.rounds, s.rounds.len() - 1, ledger);
}

proof fn lemma_cancel_conserves(s: StateView, env: Env, round_id: u64)
    requires
        s.has_round(round_id),
    ensures
        held(after_cancel(s, env, round_id)) == held(s),
{
    let before = s.ledger(round_id);
    let roll_over = s.config.rollover_on_no_winner;
    let after = cancelled(before, roll_over);
    let next = next_ledger(s, env, round_id, refund_rest(before, roll_over));
    lemma_refunds_fit(before);
    let middle = s.rounds.update(round_id - 1, after);
    lemma_pools_updated(s.rounds, round_id - 1, after);
    assert(middle.push(next).drop_last() =~= middle);
}

proof fn lemma_draw_conserves(s: StateView, env: Env, round_id: u64)
    requires
        sound(s),
        draw_refusal(s, env, round_id) is None,
    ensures
        held(drawn(s, env, round_id)) == held(s),
{
    let before = s.ledger(round_id);
    let d = draw_of(s, round_id);
    let after = settled(before, d);
    let next = next_ledger(s, env, round_id, d.rollover);
    law_prizes_never_exceed_pool(before.round.pool, d.matches, d.forced);
    let middle = s.rounds.update(round_id - 1, after);
    lemma_pools_updated(s.rounds, round_id - 1, after);
    assert(middle.push(next).drop_last() =~= middle);
}

proof fn lemma_same_pool(s: StateView, round_id: u64, ledger: LedgerView)
    requires
        s.has_round(round_id),
        ledger.round.pool == s.ledger(round_id).round.pool,
    ensures
        held(s.with_ledger(round_id, ledger)) == held(s),
{
    lemma_pools_updated(s.rounds, round_id - 1, ledger);
}

/// No coin is lost and none is made up: what the contract accounts for after a
/// request, with what it sent out, is what it accounted for before, with what was
/// paid for tickets. Nothing is sent in any other denomination.
#[verifier::spinoff_prover]
pub proof fn law_money_is_conserved(s: StateView, env: Env, info: InfoView, msg: ExecuteMsg)
    requires
        sound(s),
    ensures
        execute_outcome(s, env, info, msg) matches Ok((next, response)) ==> held(next)
            + response.sent(s.config.denom) == held(s) + taken_in(s, info, msg),
        execute_outcome(s, env, info, msg) matches Ok((next, response)) ==> forall|
            denom: Seq<char>,
        |
            denom != s.config.denom ==> #[trigger] response.sent(denom) == 0,
{
    match execute_outcome(s, env, info, msg) {
        Err(_) => {},
        Ok((next, response)) => {
            let own = s.config.denom;
            assert forall|denom: Seq<char>| denom != own implies #[trigger] response.sent(denom)
                == 0 by {
                lemma_sent(
                    response.messages[0].to_address,
                    response.messages[0].amount[0],
                    response.events[0],
                    denom,
                );
            }
            lemma_sent(
                response.messages[0].to_address,
                response.messages[0].amount[0],
                response.events[0],
                s.config.denom,
            );
            match msg {
                ExecuteMsg::BuyTickets { count, numbers, referral_code } => {
                    law_purchase_is_accounted(
                        s,
                        env,
                        info,
                        count,
                        bytes_view(numbers),
                        normal_form(text_view(referral_code)),
                    );
                },
                ExecuteMsg::GrantBonusTicket { owner, count, numbers } => {
                    law_grant_funds_the_pool(s, env, info, owner@, count, bytes_view(numbers));
                },
                ExecuteMsg::CloseRound {  } => {
                    assert(in_place(s.rounds, s.rounds.len() - 1));
                    lemma_same_pool(s, s.current(), next.ledger(s.current()));
                    assert(next =~= s.with_ledger(s.current(), next.ledger(s.current())));
                },
                ExecuteMsg::SubmitRandomness { round_id, .. } => {
                    lemma_same_pool(s, round_id, next.ledger(round_id));
                    assert(next =~= s.with_ledger(round_id, next.ledger(round_id)));
                },
                ExecuteMsg::CommitRandomness { round_id, .. } => {
                    lemma_same_pool(s, round_id, next.ledger(round_id));
                    assert(next =~= s.with_ledger(round_id, next.ledger(round_id)));
                },
                ExecuteMsg::RevealRandomness { round_id, .. } => {
                    lemma_same_pool(s, round_id, next.ledger(round_id));
                    assert(next =~= s.with_ledger(round_id, next.ledger(round_id)));
                },
                ExecuteMsg::Draw { round_id } => {
                    lemma_draw_conserves(s, env, round_id);
                },
                ExecuteMsg::CancelRound { round_id } => {
                    lemma_cancel_conserves(s, env, round_id);
                },
                ExecuteMsg::ClaimReward { round_id, ticket_id } => {
                    let ledger = s.ledger(round_id);
                    let i = named_ticket(ticket_id@, ledger.tickets.len())->0;
                    assert(ledger_sound(
                        ledger,
                        s.config.numbers_per_ticket,
                        s.config.number_max,
                    ));
                    lemma_pools_updated(s.rounds, round_id - 1, paid_out(ledger, i));
                },
                ExecuteMsg::ClaimReferral {  } => {
                    lemma_owed_inserted(s.earnings, info.sender, 0);
                },
                _ => {},
            }
        },
    }
}

/// A draw parts the pool without a rest: what the winning tickets receive stays in
/// the pool of the round. So does what they do not receive, unless undistributed
/// pools roll over and nobody won the jackpot: then it starts the next round.
pub proof fn law_draw_parts_the_pool(s: StateView, env: Env, round_id: u64)
    requires
        sound(s),
        draw_outcome(s, env, round_id) is Ok,
    ensures
        ({
            let d = draw_of(s, round_id);
            let next = drawn(s, env, round_id);
            let pool = s.ledger(round_id).round.pool;
            let kept = next.ledger(round_id).round.pool;
            let opened = next.rounds.last().round;
            &&& d.distributed <= pool
            &&& unclaimed(next.ledger(round_id).tickets) == d.distributed
            &&& if s.config.rollover_on_no_winner && d.counts.six == 0 {
                kept == d.distributed && opened.pool == pool - d.distributed
            } else {
                kept == pool && opened.pool == 0 && opened.rolled_over_from is None
            }
        }),
{
    let before = s.ledger(round_id);
    let d = draw_of(s, round_id);
    law_prizes_never_exceed_pool(before.round.pool, d.matches, d.forced);
    assert(in_place(s.rounds, round_id - 1));
    assert(ledger_sound(before, s.config.numbers_per_ticket, s.config.number_max));
    assert forall|i: int| 0 <= i < before.tickets.len() implies !(
    #[trigger] before.tickets[i]).claimed by {
        assert(undrawn(before.tickets[i]));
    }
    lemma_prized_unclaimed(before.tickets, d.matches, d.tiers);
}

/// The contract stays solvent: an account that holds, in the contract's denomination,
/// at least what is accounted for still does so after a request.
pub proof fn law_contract_stays_solvent(
    s: StateView,
    env: Env,
    info: InfoView,
    msg: ExecuteMsg,
    balance: nat,
)
    requires
        sound(s),
        balance >= held(s),
    ensures
        execute_outcome(s, env, info, msg) matches Ok((next, response)) ==> ({
            let paid_out = response.sent(s.config.denom);
            let available = balance + taken_in(s, info, msg);
            paid_out <= available && available - paid_out >= held(next)
        }),
{
    law_money_is_conserved(s, env, info, msg);
}

} // verus!
