//! What a buyer, a referrer and the treasury can rely on in a sale.

use crate::beacon::bytes_view;
use crate::codes::{lowercased, trimmed};
use crate::contract::execute_outcome;
use crate::error::{ContractError, ErrorView, OverflowError, OverflowOperation, SharedError};
use crate::host::{text_view, AddrText, Env, InfoView};
use crate::money::{coin_sum, CoinView};
use crate::msg::ExecuteMsg;
use crate::picks::{law_accepted_picks_are_valid, lemma_ascending, picks_refusal, quick_picked};
use crate::referral::normal_form;
use crate::referral_terms::{lifetime_of, pending_of};
use crate::response::ResponseView;
use crate::sales::{bought_tickets, buy_refusal, entropy_after, sold};
use crate::state::{in_place, LedgerView, RoundView, StateView, TicketView};
use crate::status::RoundStatus;
use crate::text::decimal;
use crate::ticket_ids::ticket_name;
use crate::verify::sha256_digest;
use vstd::prelude::*;
use vstd::utf8::encode_utf8;

verus! {

/// What coins are worth together.
pub open spec fn worth(coins: Seq<CoinView>) -> nat {
    coins.fold_left(0nat, |sum: nat, c: CoinView| sum + c.amount as nat)
}

proof fn lemma_worth(coins: Seq<CoinView>)
    ensures
        coin_sum(coins) == worth(coins),
    decreases coins.len(),
{
    if coins.len() > 0 {
        lemma_worth(coins.drop_last());
    }
}

/// Whether picks can be played: as many distinct numbers as a ticket has, all of the
/// domain `1..=number_max`.
pub open spec fn playable(picks: Seq<u8>, numbers_per_ticket: u8, number_max: u8) -> bool {
    &&& picks.len() == numbers_per_ticket
    &&& forall|i: int, j: int|
        #![trigger picks[i], picks[j]]
        0 <= i < j < picks.len() ==> picks[i] != picks[j]
    &&& forall|i: int| 0 <= i < picks.len() ==> 1 <= #[trigger] picks[i] <= number_max
}

/// Why a sale of that many tickets is refused whatever it is for, the first reason that
/// there is: one to a hundred tickets are sold at a time, of an open round, for exactly
/// their price in the contract's denomination and nothing else.
pub open spec fn sale_objection(s: StateView, info: InfoView, count: u32) -> Option<ErrorView> {
    let price = s.config.ticket_price.amount * count;
    let paid = worth(info.funds);
    let round = s.rounds.last().round;
    if count < 1 || count > 100 {
        Some(ContractError::InvalidTicketCount { count, max: 100 })
    } else if price > u128::MAX {
        Some(ContractError::Overflow(OverflowError { operation: OverflowOperation::Mul }))
    } else if info.funds.len() == 0 {
        Some(ContractError::Shared(SharedError::NoFunds { expected: s.config.denom }))
    } else if exists|i: int|
        0 <= i < info.funds.len() && (#[trigger] info.funds[i]).denom != s.config.denom {
        Some(ContractError::Shared(SharedError::UnexpectedFunds { expected: s.config.denom }))
    } else if paid > u128::MAX {
        Some(
            ContractError::Shared(
                SharedError::Overflow(OverflowError { operation: OverflowOperation::Add }),
            ),
        )
    } else if paid == 0 {
        Some(ContractError::Shared(SharedError::ZeroAmount))
    } else if paid != price {
        Some(
            ContractError::Shared(
                SharedError::IncorrectPayment {
                    expected: decimal(price as nat),
                    actual: decimal(paid),
                },
            ),
        )
    } else if round.status != RoundStatus::Open {
        Some(ContractError::RoundNotOpen { round_id: round.id, status: round.status.word() })
    } else {
        None
    }
}

/// Who is credited for a purchase: whoever the buyer is bound to, otherwise the owner of
/// the code, if that is someone else.
pub open spec fn upline(s: StateView, buyer: Seq<char>, code: Option<String>) -> Option<Seq<char>> {
    if s.referrer.dom().contains(buyer) {
        Some(s.referrer[buyer])
    } else {
        match code {
            Some(c) => {
                let key = lowercased(trimmed(c@));
                if s.codes.dom().contains(key) && s.codes[key] != buyer {
                    Some(s.codes[key])
                } else {
                    None
                }
            },
            None => None,
        }
    }
}

/// A part of an amount, in hundredths of a percent and rounded down.
pub open spec fn percent(amount: int, bps: u16) -> int {
    amount * bps / 10_000
}

/// Which purchases are accepted, and why others are refused: the first objection that
/// there is.
pub proof fn law_purchase_is_accepted_on_its_terms(
    s: StateView,
    env: Env,
    info: InfoView,
    count: u32,
    numbers: Option<Vec<u8>>,
    referral_code: Option<String>,
)
    requires
        s.wf(),
        s.config.split.prize_bps + s.config.split.referral_bps <= 10_000,
    ensures
        ({
            let outcome = execute_outcome(
                s,
                env,
                info,
                ExecuteMsg::BuyTickets { count, numbers, referral_code },
            );
            let total = s.config.ticket_price.amount * count;
            let prize = percent(total, s.config.split.prize_bps);
            let referral = percent(total, s.config.split.referral_bps);
            let referrer = upline(s, info.sender, referral_code);
            let too_much = Err::<(StateView, ResponseView), ErrorView>(
                ContractError::Overflow(OverflowError { operation: OverflowOperation::Add }),
            );
            if s.config.paused {
                outcome == Err::<(StateView, ResponseView), ErrorView>(ContractError::Paused)
            } else if sale_objection(s, info, count) is Some {
                outcome == Err::<(StateView, ResponseView), ErrorView>(
                    sale_objection(s, info, count)->0,
                )
            } else if total * s.config.split.prize_bps > u128::MAX || total
                * s.config.split.referral_bps > u128::MAX {
                outcome == Err::<(StateView, ResponseView), ErrorView>(
                    ContractError::Shared(
                        SharedError::Overflow(OverflowError { operation: OverflowOperation::Mul }),
                    ),
                )
            } else if s.treasury + (total - prize - referral) > u128::MAX {
                outcome == too_much
            } else if referral > 0 && referrer is Some && (pending_of(s, referrer->0) + referral
                > u128::MAX || lifetime_of(s, referrer->0).lifetime_earned + referral
                > u128::MAX) {
                outcome == too_much
            } else if s.rounds.last().round.pool + prize + (if referrer is Some {
                0
            } else {
                referral
            }) > u128::MAX {
                outcome == too_much
            } else {
                match numbers {
                    Some(n) if !playable(
                        n@,
                        s.config.numbers_per_ticket,
                        s.config.number_max,
                    ) => outcome == Err::<(StateView, ResponseView), ErrorView>(
                        picks_refusal(
                            n@,
                            s.config.numbers_per_ticket,
                            s.config.number_max,
                        )->0,
                    ),
                    _ => outcome is Ok,
                }
            }
        }),
{
    lemma_sale_objections(s, info, count);
    lemma_playable(s, numbers);
    let total = s.config.ticket_price.amount * count;
    let p = s.config.split.prize_bps as int;
    let r = s.config.split.referral_bps as int;
    assert(total * p / 10_000 + total * r / 10_000 <= total) by {
        assert(total * p + total * r <= total * 10_000) by (nonlinear_arith)
            requires
                p + r <= 10_000,
                total >= 0,
        ;
    }
    assert(total * p >= 0) by (nonlinear_arith)
        requires
            total >= 0,
            p >= 0,
    ;
    assert(total * r >= 0) by (nonlinear_arith)
        requires
            total >= 0,
            r >= 0,
    ;
}

proof fn lemma_sale_objections(s: StateView, info: InfoView, count: u32)
    requires
        s.wf(),
    ensures
        crate::sales::sale_refusal(s, info, count) == sale_objection(s, info, count),
{
    lemma_worth(info.funds);
    assert(in_place(s.rounds, s.rounds.len() - 1));
    assert(s.config.ticket_price.amount * count >= 0) by (nonlinear_arith);
}

proof fn lemma_playable(s: StateView, numbers: Option<Vec<u8>>)
    requires
        s.wf(),
    ensures
        numbers matches Some(n) ==> {
            let per = s.config.numbers_per_ticket;
            let max = s.config.number_max;
            &&& picks_refusal(n@, per, max) is None <==> playable(n@, per, max)
            &&& picks_refusal(n@, per, max) matches Some(e) ==> (e matches
                ContractError::InvalidNumbers { expected, number_max, reason } && expected == per
                && number_max == max)
        },
{
    if let Some(n) = numbers {
        law_accepted_picks_are_valid(
            n@,
            s.config.numbers_per_ticket,
            s.config.number_max,
        );
    }
}

/// Whether a sale added these tickets to a round, and nothing else but what joins the
/// pool: the tickets belong to the owner and are undrawn; the first has the picks that
/// were asked for, in ascending order, and all others the owner's quick picks for their
/// places; the round counts the tickets, and the owner once.
pub open spec fn sells(
    after: LedgerView,
    before: LedgerView,
    s: StateView,
    env: Env,
    owner: Seq<char>,
    count: u32,
    numbers: Option<Vec<u8>>,
    free: bool,
) -> bool {
    let first = before.tickets.len() as int;
    let r = before.round;
    &&& after.randomness == before.randomness
    &&& after.round == (RoundView {
        pool: after.round.pool,
        ticket_count: after.round.ticket_count,
        player_count: after.round.player_count,
        ticket_entropy: after.round.ticket_entropy,
        ..r
    })
    &&& after.round.ticket_count == if r.ticket_count + count <= u64::MAX {
        r.ticket_count + count
    } else {
        u64::MAX as int
    }
    &&& after.round.player_count == if (exists|i: int|
        0 <= i < first && (#[trigger] before.tickets[i]).owner == owner) || r.player_count
        == u64::MAX {
        r.player_count as int
    } else {
        r.player_count + 1
    }
    &&& after.tickets.len() == first + count
    &&& forall|i: int| 0 <= i < first ==> #[trigger] after.tickets[i] == before.tickets[i]
    &&& forall|i: int|
        first <= i < first + count ==> {
            let t = #[trigger] after.tickets[i];
            &&& t.owner == owner && t.matches == 0 && t.prize == 0 && !t.claimed && t.free == free
            &&& match numbers {
                Some(n) if i == first => t.numbers.to_multiset() == n@.to_multiset() && (forall|
                    j: int,
                    k: int,
                |
                    0 <= j < k < t.numbers.len() ==> t.numbers[j] <= t.numbers[k]),
                _ => t.numbers == quick_picked(
                    env,
                    owner,
                    r.id,
                    i as u64,
                    s.config.numbers_per_ticket,
                    s.config.number_max,
                ),
            }
        }
}

proof fn lemma_sells(
    s: StateView,
    env: Env,
    owner: Seq<char>,
    count: u32,
    numbers: Option<Vec<u8>>,
    free: bool,
    added: nat,
)
    requires
        s.wf(),
    ensures
        sells(
            sold(
                s.rounds.last(),
                owner,
                bought_tickets(s, env, owner, count, bytes_view(numbers), free),
                added,
            ),
            s.rounds.last(),
            s,
            env,
            owner,
            count,
            numbers,
            free,
        ),
{
    assert(in_place(s.rounds, s.rounds.len() - 1));
    let before = s.rounds.last();
    let fresh = bought_tickets(s, env, owner, count, bytes_view(numbers), free);
    let after = sold(before, owner, fresh, added);
    let first = before.tickets.len() as int;
    assert(crate::sales::owns_one(before.tickets, owner) <==> exists|i: int|
        0 <= i < first && (#[trigger] before.tickets[i]).owner == owner);
    if let Some(n) = numbers {
        lemma_ascending(n@);
        assert(vstd::relations::total_ordering(crate::picks::at_most()));
        n@.lemma_sort_by_ensures(crate::picks::at_most());
    }
    assert forall|i: int| first <= i < first + count implies {
        let t = #[trigger] after.tickets[i];
        &&& t.owner == owner && t.matches == 0 && t.prize == 0 && !t.claimed && t.free == free
        &&& match numbers {
            Some(n) if i == first => t.numbers.to_multiset() == n@.to_multiset() && (forall|
                j: int,
                k: int,
            |
                0 <= j < k < t.numbers.len() ==> t.numbers[j] <= t.numbers[k]),
            _ => t.numbers == quick_picked(
                env,
                owner,
                before.round.id,
                i as u64,
                s.config.numbers_per_ticket,
                s.config.number_max,
            ),
        }
    } by {
        assert(after.tickets[i] == fresh[i - first]);
    }
}

/// A purchase that is accepted sells the buyer the tickets asked for, and splits their
/// price: the shares of the pool and of the referrer are rounded down, the treasury
/// takes the rest, and without a referrer that share joins the pool. A buyer whom
/// nobody has referred is bound to the owner of the code. Nothing else changes.
pub proof fn law_purchase_splits_its_price(
    s: StateView,
    env: Env,
    info: InfoView,
    count: u32,
    numbers: Option<Vec<u8>>,
    referral_code: Option<String>,
)
    requires
        s.wf(),
    ensures
        execute_outcome(
            s,
            env,
            info,
            ExecuteMsg::BuyTickets { count, numbers, referral_code },
        ) matches Ok((next, response)) ==> {
            let buyer = info.sender;
            let total = s.config.ticket_price.amount * count;
            let prize = percent(total, s.config.split.prize_bps);
            let referral = percent(total, s.config.split.referral_bps);
            let referrer = upline(s, buyer, referral_code);
            let n = s.rounds.len() as int;
            let before = s.rounds.last();
            let after = next.rounds.last();
            &&& worth(info.funds) == total
            &&& response.messages.len() == 0
            &&& next == (StateView {
                treasury: next.treasury,
                rounds: s.rounds.update(n - 1, after),
                referrer: next.referrer,
                earnings: next.earnings,
                totals: next.totals,
                ..s
            })
            &&& sells(after, before, s, env, buyer, count, numbers, false)
            &&& next.treasury == s.treasury + total - prize - referral
            &&& after.round.pool == before.round.pool + prize + if referrer is Some {
                0
            } else {
                referral
            }
            &&& match referrer {
                None => next.referrer == s.referrer && next.earnings == s.earnings && next.totals
                    == s.totals,
                Some(r) => {
                    let was = lifetime_of(s, r);
                    let is = lifetime_of(next, r);
                    let fresh = !s.referrer.dom().contains(buyer);
                    &&& next.referrer == if fresh {
                        s.referrer.insert(buyer, r)
                    } else {
                        s.referrer
                    }
                    &&& pending_of(next, r) == pending_of(s, r) + referral
                    &&& is.lifetime_earned == was.lifetime_earned + referral
                    &&& is.lifetime_claimed == was.lifetime_claimed
                    &&& is.referees == if fresh && was.referees < u64::MAX {
                        was.referees + 1
                    } else {
                        was.referees as int
                    }
                    &&& forall|other: Seq<char>|
                        other != r ==> #[trigger] pending_of(next, other) == pending_of(s, other)
                            && lifetime_of(next, other) == lifetime_of(s, other)
                },
            }
        },
{
    let code = normal_form(text_view(referral_code));
    let nums = bytes_view(numbers);
    if buy_refusal(s, info, count, nums, code) is None {
        lemma_worth(info.funds);
        lemma_sells(
            s,
            env,
            info.sender,
            count,
            numbers,
            false,
            crate::sales::pool_share(s, info.sender, code, crate::sales::price_of(s, count)),
        );
        assert(in_place(s.rounds, s.rounds.len() - 1));
        crate::money::law_payment_counts_one_denom(info.funds, s.config.denom);
        crate::money::lemma_all_of(info.funds, s.config.denom);
    }
}

/// Which grants of bonus tickets are accepted, and what they do: the admin or a submitter
/// pays the whole price, all of it joins the pool, and the tickets belong to the
/// owner as if bought, but for being free.
pub proof fn law_grant_funds_free_tickets(
    s: StateView,
    env: Env,
    info: InfoView,
    owner: AddrText,
    count: u32,
    numbers: Option<Vec<u8>>,
)
    requires
        s.wf(),
    ensures
        ({
            let outcome = execute_outcome(
                s,
                env,
                info,
                ExecuteMsg::GrantBonusTicket { owner, count, numbers },
            );
            let total = s.config.ticket_price.amount * count;
            let before = s.rounds.last();
            let objection = sale_objection(s, info, count);
            if s.config.paused {
                outcome == Err::<(StateView, ResponseView), ErrorView>(ContractError::Paused)
            } else if info.sender != s.config.admin && !s.config.authorized_submitters.contains(
                info.sender,
            ) {
                outcome == Err::<(StateView, ResponseView), ErrorView>(
                    ContractError::UnauthorizedSubmitter,
                )
            } else if owner.verdict is Err {
                outcome == Err::<(StateView, ResponseView), ErrorView>(
                    ContractError::Std(owner.verdict->Err_0@),
                )
            } else if objection is Some {
                outcome == Err::<(StateView, ResponseView), ErrorView>(objection->0)
            } else if before.round.pool + total > u128::MAX {
                outcome == Err::<(StateView, ResponseView), ErrorView>(
                    ContractError::Overflow(OverflowError { operation: OverflowOperation::Add }),
                )
            } else if numbers is Some && !playable(
                numbers->0@,
                s.config.numbers_per_ticket,
                s.config.number_max,
            ) {
                outcome == Err::<(StateView, ResponseView), ErrorView>(
                    picks_refusal(
                        numbers->0@,
                        s.config.numbers_per_ticket,
                        s.config.number_max,
                    )->0,
                )
            } else {
                outcome matches Ok((next, response)) && {
                    let after = next.rounds.last();
                    &&& response.messages.len() == 0
                    &&& next == (StateView {
                        rounds: s.rounds.update(s.rounds.len() - 1, after),
                        ..s
                    })
                    &&& after.round.pool == before.round.pool + total
                    &&& sells(
                        after,
                        before,
                        s,
                        env,
                        owner.verdict->Ok_0@,
                        count,
                        numbers,
                        true,
                    )
                }
            }
        }),
{
    lemma_sale_objections(s, info, count);
    lemma_playable(s, numbers);
    assert(in_place(s.rounds, s.rounds.len() - 1));
    assert(s.config.ticket_price.amount * count >= 0) by (nonlinear_arith);
    if owner.verdict is Ok {
        lemma_sells(
            s,
            env,
            owner.verdict->Ok_0@,
            count,
            numbers,
            true,
            (s.config.ticket_price.amount * count) as nat,
        );
    }
}

/// The running digest of a round takes in every ticket that is sold, one after the
/// other: what it was, the owner, the ticket's id and its picks.
pub proof fn law_sale_digests_every_ticket(
    s: StateView,
    env: Env,
    info: InfoView,
    msg: ExecuteMsg,
) -> (digests: Seq<Seq<u8>>)
    requires
        s.wf(),
        msg is BuyTickets || msg is GrantBonusTicket,
    ensures
        execute_outcome(s, env, info, msg) matches Ok((next, _)) ==> {
            let before = s.rounds.last();
            let after = next.rounds.last();
            let first = before.tickets.len() as int;
            let sold_now = after.tickets.len() - first;
            &&& sold_now >= 0
            &&& digests.len() == sold_now + 1
            &&& digests[0] == before.round.ticket_entropy
            &&& digests[sold_now] == after.round.ticket_entropy
            &&& forall|i: int|
                0 <= i < sold_now ==> #[trigger] digests[i + 1] == sha256_digest(
                    digests[i] + encode_utf8(after.tickets[first + i].owner) + encode_utf8(
                        ticket_name((first + i) as nat),
                    ) + after.tickets[first + i].numbers,
                )
        },
{
    match execute_outcome(s, env, info, msg) {
        Err(_) => Seq::empty(),
        Ok((next, _)) => {
            assert(in_place(s.rounds, s.rounds.len() - 1));
            let before = s.rounds.last();
            let after = next.rounds.last();
            let first = before.tickets.len();
            let fresh = match msg {
                ExecuteMsg::BuyTickets { count, numbers, .. } => bought_tickets(
                    s,
                    env,
                    info.sender,
                    count,
                    bytes_view(numbers),
                    false,
                ),
                ExecuteMsg::GrantBonusTicket { owner, count, numbers } => bought_tickets(
                    s,
                    env,
                    owner@.verdict->Ok_0,
                    count,
                    bytes_view(numbers),
                    true,
                ),
                _ => Seq::empty(),
            };
            assert(after.tickets == before.tickets + fresh);
            let e = before.round.ticket_entropy;
            let digests = Seq::new(
                fresh.len() + 1,
                |i: int| entropy_after(e, first, fresh.take(i)),
            );
            assert(fresh.take(0) =~= Seq::<TicketView>::empty());
            assert(fresh.take(fresh.len() as int) =~= fresh);
            assert forall|i: int| 0 <= i < fresh.len() implies #[trigger] digests[i + 1]
                == sha256_digest(
                digests[i] + encode_utf8(after.tickets[first + i].owner) + encode_utf8(
                    ticket_name((first + i) as nat),
                ) + after.tickets[first + i].numbers,
            ) by {
                assert(fresh.take(i + 1).drop_last() =~= fresh.take(i));
                assert(fresh.take(i + 1).last() == fresh[i]);
                assert(after.tickets[first + i] == fresh[i]);
            }
            digests
        },
    }
}

} // verus!
