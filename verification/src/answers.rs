//! What the answers to queries tell of the state.

use crate::contract::query_outcome;
use crate::draw_terms::prize_total;
use crate::error::{ContractError, ErrorView, OverflowError, OverflowOperation};
use crate::host::{text_view, AddrText};
use crate::msg::{
    QueryMsg, ReferralSummaryResponse, ReplyView, RoundResponseView, TicketInfoView,
    TreasuryBalanceResponse,
};
use crate::queries::{is_won_by, listing, winning_ids, won};
use crate::referral_terms::{lifetime_of, pending_of};
use crate::state::{StateView, TicketView};
use crate::status::RoundStatus;
use crate::text::lex_lt;
use crate::ticket_ids::ticket_name;
use vstd::prelude::*;
use vstd::utf8::encode_utf8;

verus! {

/// The answer about the configuration is the configuration.
pub proof fn law_config_is_shown(s: StateView)
    ensures
        query_outcome(s, QueryMsg::Config {  }) == Ok::<ReplyView, ErrorView>(
            ReplyView::Config(s.config),
        ),
{
}

/// The answer about a round tells all of it as it stands; the dry streak is that of the
/// round once it is settled, and the present one before. The current round is the last
/// one.
pub proof fn law_round_is_shown(s: StateView, round_id: u64)
    requires
        s.rounds.len() <= u64::MAX,
    ensures
        ({
            let ledger = s.rounds[round_id - 1];
            let r = ledger.round;
            let answer = query_outcome(s, QueryMsg::Round { round_id });
            &&& answer == if 1 <= round_id <= s.rounds.len() {
                Ok::<ReplyView, ErrorView>(
                    ReplyView::Round(
                        RoundResponseView {
                            id: r.id,
                            status: r.status,
                            pool: r.pool,
                            ticket_count: r.ticket_count,
                            player_count: r.player_count,
                            opens_at: r.opens_at,
                            closes_at: r.closes_at,
                            winning_numbers: r.winning_numbers,
                            prize_tiers: r.prize_tiers,
                            rolled_over_from: r.rolled_over_from,
                            winning_tickets: r.winning_tickets,
                            randomness: ledger.randomness,
                            dry_streak: if r.status == RoundStatus::Settled {
                                r.dry_streak_after
                            } else {
                                s.dry_streak
                            },
                        },
                    ),
                )
            } else {
                Err(ContractError::RoundNotFound { round_id })
            }
            &&& round_id == s.rounds.len() ==> query_outcome(s, QueryMsg::CurrentRound {  })
                == answer
        }),
{
}

/// Whether a listing asks for the ticket at a place: it belongs to the owner asked for,
/// if any, and its id comes after the text to start from, if any.
pub open spec fn is_asked_for(
    tickets: Seq<TicketView>,
    i: int,
    owner: Option<AddrText>,
    start_after: Option<String>,
) -> bool {
    &&& owner matches Some(name) ==> (name.verdict matches Ok(address) && tickets[i].owner
        == address@)
    &&& start_after matches Some(start) ==> lex_lt(
        encode_utf8(start@),
        encode_utf8(ticket_name(i as nat)),
    )
}

proof fn lemma_listed_places(
    tickets: Seq<TicketView>,
    n: nat,
    owner: Option<Seq<char>>,
    start: Option<Seq<char>>,
) -> (places: Seq<int>)
    requires
        n <= tickets.len(),
    ensures
        places.len() == listing(tickets, n, owner, start).len(),
        forall|k: int|
            0 <= k < places.len() ==> 0 <= #[trigger] places[k] < n && listing(
                tickets,
                n,
                owner,
                start,
            )[k] == (TicketInfoView {
                ticket_id: ticket_name(places[k] as nat),
                ticket: tickets[places[k]],
            }) && crate::queries::is_listed(
                tickets[places[k]],
                ticket_name(places[k] as nat),
                owner,
                start,
            ),
        forall|k: int, l: int| 0 <= k < l < places.len() ==> places[k] < places[l],
        forall|j: int|
            0 <= j < n && crate::queries::is_listed(
                #[trigger] tickets[j],
                ticket_name(j as nat),
                owner,
                start,
            ) ==> places.contains(j),
    decreases n,
{
    if n == 0 {
        Seq::empty()
    } else {
        let m = (n - 1) as nat;
        let before = lemma_listed_places(tickets, m, owner, start);
        let places = if crate::queries::is_listed(
            tickets[m as int],
            ticket_name(m),
            owner,
            start,
        ) {
            before.push(m as int)
        } else {
            before
        };
        assert forall|j: int|
            0 <= j < n && crate::queries::is_listed(
                #[trigger] tickets[j],
                ticket_name(j as nat),
                owner,
                start,
            ) implies places.contains(j) by {
            if j < m {
                assert(before.contains(j));
                let k = choose|k: int| 0 <= k < before.len() && before[k] == j;
                assert(places[k] == j);
            } else {
                assert(places[before.len() as int] == j);
            }
        }
        places
    }
}

/// The answer about the tickets of a round is a page of those asked for, each under its
/// id and as it stands, in the order of purchase and without a gap: thirty where no size
/// is given, and at most a hundred. A ticket that is asked for and not on the page
/// comes after a full page.
pub proof fn law_tickets_are_shown(
    s: StateView,
    round_id: u64,
    owner: Option<AddrText>,
    start_after: Option<String>,
    limit: Option<u32>,
) -> (places: Seq<int>)
    ensures
        ({
            let answer = query_outcome(
                s,
                QueryMsg::Tickets { round_id, owner, start_after, limit },
            );
            let tickets = if 1 <= round_id <= s.rounds.len() {
                s.rounds[round_id - 1].tickets
            } else {
                Seq::empty()
            };
            let size: int = match limit {
                None => 30,
                Some(l) => if l > 100 {
                    100
                } else {
                    l as int
                },
            };
            if owner matches Some(name) && name.verdict is Err {
                answer == Err::<ReplyView, ErrorView>(
                    ContractError::Std(owner->0.verdict->Err_0@),
                )
            } else {
                answer matches Ok(ReplyView::Tickets(page)) && {
                    &&& page.len() == places.len()
                    &&& page.len() <= size
                    &&& forall|k: int|
                        0 <= k < places.len() ==> 0 <= #[trigger] places[k] < tickets.len()
                            && page[k] == (TicketInfoView {
                            ticket_id: ticket_name(places[k] as nat),
                            ticket: tickets[places[k]],
                        }) && is_asked_for(tickets, places[k], owner, start_after)
                    &&& forall|k: int, l: int| 0 <= k < l < places.len() ==> places[k] < places[l]
                    &&& forall|j: int|
                        0 <= j < tickets.len() && #[trigger] is_asked_for(
                            tickets,
                            j,
                            owner,
                            start_after,
                        ) ==> places.contains(j) || (page.len() == size && forall|k: int|
                            0 <= k < places.len() ==> places[k] < j)
                }
            }
        }),
{
    let tickets = if 1 <= round_id <= s.rounds.len() {
        s.rounds[round_id - 1].tickets
    } else {
        Seq::empty()
    };
    let size: int = crate::queries::page_size(limit) as int;
    let who: Option<Seq<char>> = match owner {
        Some(name) => match name.verdict {
            Ok(address) => Some(address@),
            Err(_) => None,
        },
        None => None,
    };
    let start = text_view(start_after);
    let all = lemma_listed_places(tickets, tickets.len(), who, start);
    let places = if all.len() <= size {
        all
    } else {
        all.take(size)
    };
    if !(owner matches Some(name) && name.verdict is Err) {
        assert forall|j: int|
            0 <= j < tickets.len() && #[trigger] is_asked_for(
                tickets,
                j,
                owner,
                start_after,
            ) implies places.contains(j) || (places.len() == size && forall|k: int|
            0 <= k < places.len() ==> places[k] < j) by {
            assert(crate::queries::is_listed(tickets[j], ticket_name(j as nat), who, start));
            assert(all.contains(j));
            let p = choose|p: int| 0 <= p < all.len() && all[p] == j;
            if p < places.len() {
                assert(places[p] == j);
            }
        }
    }
    places
}

/// The tickets of an account whose prize has been paid, or has not.
pub open spec fn of_owner(tickets: Seq<TicketView>, who: Seq<char>, claimed: bool) -> Seq<
    TicketView,
> {
    tickets.filter(|t: TicketView| t.owner == who && t.claimed == claimed)
}

proof fn lemma_won_sums(tickets: Seq<TicketView>, n: nat, who: Seq<char>, claimed: bool)
    requires
        n <= tickets.len(),
    ensures
        won(tickets, n, who, claimed) == prize_total(
            of_owner(tickets.take(n as int), who, claimed),
        ),
    decreases n,
{
    reveal(Seq::filter);
    let head = tickets.take(n as int);
    if n == 0 {
        assert(head =~= Seq::<TicketView>::empty());
        assert(of_owner(head, who, claimed) =~= Seq::<TicketView>::empty());
    } else {
        lemma_won_sums(tickets, (n - 1) as nat, who, claimed);
        let rest = tickets.take(n - 1);
        assert(head.drop_last() =~= rest);
        let t = tickets[n - 1];
        let before = of_owner(rest, who, claimed);
        if t.owner == who && t.claimed == claimed {
            assert(of_owner(head, who, claimed) == before.push(t));
            assert(before.push(t).drop_last() =~= before);
        }
    }
}

proof fn lemma_winning_places(tickets: Seq<TicketView>, n: nat, who: Seq<char>) -> (places: Seq<
    int,
>)
    requires
        n <= tickets.len(),
    ensures
        places.len() == winning_ids(tickets, n, who).len(),
        forall|k: int|
            0 <= k < places.len() ==> 0 <= #[trigger] places[k] < n && winning_ids(
                tickets,
                n,
                who,
            )[k] == ticket_name(places[k] as nat) && is_won_by(tickets[places[k]], who),
        forall|k: int, l: int| 0 <= k < l < places.len() ==> places[k] < places[l],
        forall|j: int|
            0 <= j < n && is_won_by(#[trigger] tickets[j], who) ==> places.contains(j),
    decreases n,
{
    if n == 0 {
        Seq::empty()
    } else {
        let m = (n - 1) as nat;
        let before = lemma_winning_places(tickets, m, who);
        let places = if is_won_by(tickets[m as int], who) {
            before.push(m as int)
        } else {
            before
        };
        assert forall|j: int| 0 <= j < n && is_won_by(#[trigger] tickets[j], who) implies
            places.contains(j) by {
            if j < m {
                assert(before.contains(j));
                let k = choose|k: int| 0 <= k < before.len() && before[k] == j;
                assert(places[k] == j);
            } else {
                assert(places[before.len() as int] == j);
            }
        }
        places
    }
}

/// The answer about an account's prizes in a round tells what its tickets won together,
/// paid and not paid, and which of them won something, in the order of purchase.
pub proof fn law_prizes_are_shown(s: StateView, round_id: u64, owner: AddrText) -> (places: Seq<
    int,
>)
    ensures
        ({
            let answer = query_outcome(s, QueryMsg::Prize { round_id, owner });
            let tickets = s.rounds[round_id - 1].tickets;
            match owner.verdict {
                Err(reason) => answer == Err::<ReplyView, ErrorView>(ContractError::Std(reason@)),
                Ok(address) => {
                    let who = address@;
                    let open = prize_total(of_owner(tickets, who, false));
                    let paid = prize_total(of_owner(tickets, who, true));
                    if !(1 <= round_id <= s.rounds.len()) {
                        answer == Err::<ReplyView, ErrorView>(
                            ContractError::RoundNotFound { round_id },
                        )
                    } else if open > u128::MAX || paid > u128::MAX {
                        answer == Err::<ReplyView, ErrorView>(
                            ContractError::Overflow(
                                OverflowError { operation: OverflowOperation::Add },
                            ),
                        )
                    } else {
                        answer matches Ok(ReplyView::Prize(shown)) && {
                            &&& shown.round_id == round_id
                            &&& shown.owner == owner.text@
                            &&& shown.claimable == open
                            &&& shown.claimed == paid
                            &&& shown.winning_ticket_ids.len() == places.len()
                            &&& forall|k: int|
                                0 <= k < places.len() ==> 0 <= #[trigger] places[k] < tickets.len()
                                    && shown.winning_ticket_ids[k] == ticket_name(
                                    places[k] as nat,
                                ) && tickets[places[k]].owner == who && tickets[places[k]].prize
                                    > 0
                            &&& forall|k: int, l: int|
                                0 <= k < l < places.len() ==> places[k] < places[l]
                            &&& forall|j: int|
                                0 <= j < tickets.len() && (#[trigger] tickets[j]).owner == who
                                    && tickets[j].prize > 0 ==> places.contains(j)
                        }
                    }
                },
            }
        }),
{
    if owner.verdict is Ok && 1 <= round_id <= s.rounds.len() {
        let tickets = s.rounds[round_id - 1].tickets;
        let who = owner.verdict->Ok_0@;
        assert(tickets.take(tickets.len() as int) =~= tickets);
        lemma_won_sums(tickets, tickets.len(), who, true);
        lemma_won_sums(tickets, tickets.len(), who, false);
        let places = lemma_winning_places(tickets, tickets.len(), who);
        assert forall|j: int|
            0 <= j < tickets.len() && (#[trigger] tickets[j]).owner == who && tickets[j].prize
                > 0 implies places.contains(j) by {
            assert(is_won_by(tickets[j], who));
        }
        places
    } else {
        Seq::empty()
    }
}

/// The answers about referrals tell whom an account is bound to, and what a referrer has
/// pending, earned and claimed, and how many referees.
pub proof fn law_referrals_are_shown(s: StateView, name: AddrText)
    ensures
        ({
            let bound = query_outcome(s, QueryMsg::Referrer { referee: name });
            let summary = query_outcome(s, QueryMsg::ReferralSummary { addr: name });
            match name.verdict {
                Err(reason) => bound == Err::<ReplyView, ErrorView>(ContractError::Std(reason@))
                    && summary == Err::<ReplyView, ErrorView>(ContractError::Std(reason@)),
                Ok(address) => {
                    let who = address@;
                    &&& bound == Ok::<ReplyView, ErrorView>(
                        ReplyView::Referrer(
                            if s.referrer.dom().contains(who) {
                                Some(s.referrer[who])
                            } else {
                                None
                            },
                        ),
                    )
                    &&& summary == Ok::<ReplyView, ErrorView>(
                        ReplyView::ReferralSummary(
                            ReferralSummaryResponse {
                                addr: who,
                                denom: s.config.denom,
                                pending: pending_of(s, who) as u128,
                                referees: lifetime_of(s, who).referees,
                                lifetime_earned: lifetime_of(s, who).lifetime_earned,
                                lifetime_claimed: lifetime_of(s, who).lifetime_claimed,
                            },
                        ),
                    )
                },
            }
        }),
{
}

/// The answer about the treasury tells what it holds.
pub proof fn law_treasury_is_shown(s: StateView)
    ensures
        query_outcome(s, QueryMsg::TreasuryBalance {  }) == Ok::<ReplyView, ErrorView>(
            ReplyView::TreasuryBalance(
                TreasuryBalanceResponse { balance: s.treasury as u128, denom: s.config.denom },
            ),
        ),
{
}

} // verus!
