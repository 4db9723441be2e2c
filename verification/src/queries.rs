//! Answers to queries.

use crate::constants::{DEFAULT_QUERY_LIMIT, MAX_QUERY_LIMIT};
use crate::error::{add_overflow, ContractError, ErrorView, OverflowError, OverflowOperation};
use crate::host::{addr_option_view, text_view, AddrText, AddrView};
use crate::msg::{
    PrizeResponse, PrizeResponseView, ReferralSummaryResponse, ReferrerResponse, RoundResponse,
    RoundResponseView, TicketInfo, TicketInfoView, TicketsResponse, TreasuryBalanceResponse,
};
use crate::state::{copy_optional_bytes, tickets_view, State, StateView, Ticket, TicketView};
use crate::status::RoundStatus;
use crate::table::lookup;
use crate::text::{bytes_before, lex_lt, texts};
use crate::ticket_ids::{ticket_id, ticket_name};
use vstd::prelude::*;
use vstd::string::*;
use vstd::utf8::encode_utf8;

verus! {

/// What a query shows of a round.
pub open spec fn shown_round(s: StateView, round_id: u64) -> Result<RoundResponseView, ErrorView> {
    if !s.has_round(round_id) {
        Err(ContractError::RoundNotFound { round_id })
    } else {
        let ledger = s.ledger(round_id);
        let r = ledger.round;
        Ok(
            RoundResponseView {
                id: r.id,
                status: r.status,
                pool: r.pool,
                ticket_count: r.ticket_count,
                player_count: r.player_count,
                opens_at: r.opens_at,
                closes_at: r.closes_at,
                winning_numbers: r.winning_numbers,
                prize_tiers: r.prize_tiers,
                rolled_over_from: r.rolled_over_from,
                winning_tickets: r.winning_tickets,
                randomness: ledger.randomness,
                dry_streak: if r.status == RoundStatus::Settled {
                    r.dry_streak_after
                } else {
                    s.dry_streak
                },
            },
        )
    }
}

/// Shows a round.
pub fn query_round(state: &State, round_id: u64) -> (result: Result<RoundResponse, ContractError>)
    requires
        state.wf(),
    ensures
        match shown_round(state@, round_id) {
            Ok(shown) => result matches Ok(r) && r@ == shown,
            Err(e) => result matches Err(error) && error@ == e,
        },
{
    let at: usize = match state.find_round(round_id) {
        Some(at) => at,
        None => return Err(ContractError::RoundNotFound { round_id }),
    };
    assert(state@.ledger(round_id) == state.rounds@[at as int]@);
    let ledger = &state.rounds[at];
    let r = &ledger.round;
    Ok(
        RoundResponse {
            id: r.id,
            status: r.status,
            pool: r.pool,
            ticket_count: r.ticket_count,
            player_count: r.player_count,
            opens_at: r.opens_at,
            closes_at: r.closes_at,
            winning_numbers: copy_optional_bytes(&r.winning_numbers),
            prize_tiers: r.prize_tiers,
            rolled_over_from: r.rolled_over_from,
            winning_tickets: r.winning_tickets,
            randomness: match &ledger.randomness {
                Some(request) => Some(request.copy()),
                None => None,
            },
            dry_streak: if r.status == RoundStatus::Settled {
                r.dry_streak_after
            } else {
                state.dry_streak
            },
        },
    )
}

/// Whether a listing contains a ticket: it belongs to the owner asked for, and its
/// id comes after the text to start from, byte by byte.
pub open spec fn is_listed(
    ticket: TicketView,
    id: Seq<char>,
    owner: Option<Seq<char>>,
    start_after: Option<Seq<char>>,
) -> bool {
    &&& owner matches Some(o) ==> ticket.owner == o
    &&& start_after matches Some(start) ==> lex_lt(encode_utf8(start), encode_utf8(id))
}

/// The listed tickets among the first `n` of a round, in the order of purchase.
pub open spec fn listing(
    tickets: Seq<TicketView>,
    n: nat,
    owner: Option<Seq<char>>,
    start_after: Option<Seq<char>>,
) -> Seq<TicketInfoView>
    decreases n,
{
    if n == 0 {
        Seq::empty()
    } else {
        let before = listing(tickets, (n - 1) as nat, owner, start_after);
        let id = ticket_name((n - 1) as nat);
        let ticket = tickets[n - 1];
        if is_listed(ticket, id, owner, start_after) {
            before.push(TicketInfoView { ticket_id: id, ticket })
        } else {
            before
        }
    }
}

/// The size of a page.
pub open spec fn page_size(limit: Option<u32>) -> nat {
    match limit {
        None => DEFAULT_QUERY_LIMIT as nat,
        Some(l) => if l > MAX_QUERY_LIMIT {
            MAX_QUERY_LIMIT as nat
        } else {
            l as nat
        },
    }
}

/// The first part of a list.
pub open spec fn first_page<T>(list: Seq<T>, size: nat) -> Seq<T> {
    if list.len() <= size {
        list
    } else {
        list.take(size as int)
    }
}

/// The tickets of a round; a round that does not exist has none.
pub open spec fn tickets_of(s: StateView, round_id: u64) -> Seq<TicketView> {
    if s.has_round(round_id) {
        s.ledger(round_id).tickets
    } else {
        Seq::empty()
    }
}

/// What a query shows of a round's tickets.
pub open spec fn shown_tickets(
    s: StateView,
    round_id: u64,
    owner: Option<AddrView>,
    start_after: Option<Seq<char>>,
    limit: Option<u32>,
) -> Result<Seq<TicketInfoView>, ErrorView> {
    let tickets = tickets_of(s, round_id);
    match owner {
        Some(name) => match name.verdict {
            Err(reason) => Err(ContractError::Std(reason)),
            Ok(address) => Ok(
                first_page(
                    listing(tickets, tickets.len(), Some(address), start_after),
                    page_size(limit),
                ),
            ),
        },
        None => Ok(
            first_page(listing(tickets, tickets.len(), None, start_after), page_size(limit)),
        ),
    }
}

proof fn lemma_listing_grows(
    tickets: Seq<TicketView>,
    n: nat,
    owner: Option<Seq<char>>,
    start_after: Option<Seq<char>>,
    m: nat,
)
    requires
        n <= m,
    ensures
        listing(tickets, n, owner, start_after).is_prefix_of(
            listing(tickets, m, owner, start_after),
        ),
    decreases m - n,
{
    if n < m {
        lemma_listing_grows(tickets, n, owner, start_after, (m - 1) as nat);
    }
}

fn list_tickets(
    tickets: &Vec<Ticket>,
    owner: &Option<String>,
    start_after: &Option<String>,
    size: usize,
) -> (page: Vec<TicketInfo>)
    ensures
        Seq::new(page@.len(), |i: int| page@[i]@) == first_page(
            listing(
                tickets_view(tickets@),
                tickets@.len(),
                text_view(*owner),
                text_view(*start_after),
            ),
            size as nat,
        ),
{
    let ghost shown = tickets_view(tickets@);
    let ghost o = text_view(*owner);
    let ghost start = text_view(*start_after);
    let mut page: Vec<TicketInfo> = Vec::new();
    let mut i: usize = 0;
    assert(Seq::new(page@.len(), |j: int| page@[j]@) =~= listing(shown, 0, o, start));
    while i < tickets.len() && page.len() < size
        invariant
            i <= tickets.len(),
            page.len() <= size,
            shown == tickets_view(tickets@),
            o == text_view(*owner),
            start == text_view(*start_after),
            Seq::new(page@.len(), |j: int| page@[j]@) == listing(shown, i as nat, o, start),
        decreases tickets.len() - i,
    {
        let id = ticket_id(i as u64);
        let of_owner: bool = match owner {
            Some(who) => tickets[i].owner == *who,
            None => true,
        };
        let after_start: bool = match start_after {
            Some(text) => bytes_before(text.as_str().as_bytes(), id.as_str().as_bytes()),
            None => true,
        };
        assert(shown[i as int] == tickets@[i as int]@);
        if of_owner && after_start {
            let ghost before = page@;
            page.push(TicketInfo { ticket_id: id, ticket: tickets[i].copy() });
            assert(Seq::new(page@.len(), |j: int| page@[j]@) =~= Seq::new(
                before.len(),
                |j: int| before[j]@,
            ).push(page@.last()@));
        }
        i = i + 1;
    }
    proof {
        let whole = listing(shown, tickets@.len(), o, start);
        lemma_listing_grows(shown, i as nat, o, start, tickets@.len());
        assert(Seq::new(page@.len(), |j: int| page@[j]@) =~= first_page(whole, size as nat));
    }
    page
}

/// Shows a page of a round's tickets.
pub fn query_tickets(
    state: &State,
    round_id: u64,
    owner: Option<AddrText>,
    start_after: Option<String>,
    limit: Option<u32>,
) -> (result: Result<TicketsResponse, ContractError>)
    requires
        state.wf(),
    ensures
        match shown_tickets(
            state@,
            round_id,
            addr_option_view(owner),
            text_view(start_after),
            limit,
        ) {
            Ok(shown) => result matches Ok(r) && r@ == shown,
            Err(e) => result matches Err(error) && error@ == e,
        },
{
    let address: Option<String> = match owner {
        Some(name) => match name.verdict {
            Ok(address) => Some(address),
            Err(reason) => return Err(ContractError::Std(reason)),
        },
        None => None,
    };
    let size: usize = match limit {
        None => DEFAULT_QUERY_LIMIT as usize,
        Some(l) => if l > MAX_QUERY_LIMIT {
            MAX_QUERY_LIMIT as usize
        } else {
            l as usize
        },
    };
    let page: Vec<TicketInfo> = match state.find_round(round_id) {
        Some(at) => {
            assert(state@.ledger(round_id) == state.rounds@[at as int]@);
            list_tickets(&state.rounds[at].tickets, &address, &start_after, size)
        },
        None => Vec::new(),
    };
    let response = TicketsResponse { tickets: page };
    assert(response@ =~= shown_tickets(
        state@,
        round_id,
        addr_option_view(owner),
        text_view(start_after),
        limit,
    )->Ok_0);
    Ok(response)
}

/// Whether a ticket of the account won something.
pub open spec fn is_won_by(ticket: TicketView, who: Seq<char>) -> bool {
    ticket.owner == who && ticket.prize > 0
}

/// The prizes of an account among the first `n` tickets, those that have been paid
/// or those that have not.
pub open spec fn won(tickets: Seq<TicketView>, n: nat, who: Seq<char>, claimed: bool) -> nat
    decreases n,
{
    if n == 0 {
        0
    } else {
        let t = tickets[n - 1];
        won(tickets, (n - 1) as nat, who, claimed) + if is_won_by(t, who) && t.claimed == claimed {
            t.prize
        } else {
            0
        }
    }
}

/// The ids of an account's winning tickets among the first `n`.
pub open spec fn winning_ids(tickets: Seq<TicketView>, n: nat, who: Seq<char>) -> Seq<Seq<char>>
    decreases n,
{
    if n == 0 {
        Seq::empty()
    } else {
        let before = winning_ids(tickets, (n - 1) as nat, who);
        if is_won_by(tickets[n - 1], who) {
            before.push(ticket_name((n - 1) as nat))
        } else {
            before
        }
    }
}

/// What a query shows of an account's prizes in a round.
pub open spec fn shown_prize(s: StateView, round_id: u64, owner: AddrView) -> Result<
    PrizeResponseView,
    ErrorView,
> {
    match owner.verdict {
        Err(reason) => Err(ContractError::Std(reason)),
        Ok(who) => if !s.has_round(round_id) {
            Err(ContractError::RoundNotFound { round_id })
        } else {
            let tickets = s.ledger(round_id).tickets;
            let n = tickets.len();
            let claimed = won(tickets, n, who, true);
            let claimable = won(tickets, n, who, false);
            if claimed > u128::MAX || claimable > u128::MAX {
                Err(ContractError::Overflow(add_overflow()))
            } else {
                Ok(
                    PrizeResponseView {
                        round_id,
                        owner: owner.text,
                        claimable,
                        claimed,
                        winning_ticket_ids: winning_ids(tickets, n, who),
                    },
                )
            }
        },
    }
}

proof fn lemma_won_grows(tickets: Seq<TicketView>, n: nat, who: Seq<char>, claimed: bool, m: nat)
    requires
        n <= m,
    ensures
        won(tickets, n, who, claimed) <= won(tickets, m, who, claimed),
    decreases m - n,
{
    if n < m {
        lemma_won_grows(tickets, n, who, claimed, (m - 1) as nat);
    }
}

/// Shows what an account won in a round.
pub fn query_prize(state: &State, round_id: u64, owner: AddrText) -> (result: Result<
    PrizeResponse,
    ContractError,
>)
    requires
        state.wf(),
    ensures
        match shown_prize(state@, round_id, owner@) {
            Ok(shown) => result matches Ok(r) && r@ == shown,
            Err(e) => result matches Err(error) && error@ == e,
        },
{
    let who: String = match owner.verdict {
        Ok(address) => address,
        Err(reason) => return Err(ContractError::Std(reason)),
    };
    let at: usize = match state.find_round(round_id) {
        Some(at) => at,
        None => return Err(ContractError::RoundNotFound { round_id }),
    };
    let ghost whose = who@;
    let ghost tickets = state@.ledger(round_id).tickets;
    let list = &state.rounds[at].tickets;
    assert(tickets == tickets_view(list@));
    let mut claimable: u128 = 0;
    let mut claimed: u128 = 0;
    let mut ids: Vec<String> = Vec::new();
    let mut i: usize = 0;
    assert(texts(ids@) =~= winning_ids(tickets, 0, whose));
    while i < list.len()
        invariant
            i <= list.len(),
            whose == who@,
            owner@.verdict == Ok::<Seq<char>, Seq<char>>(whose),
            state@.has_round(round_id),
            tickets == state@.ledger(round_id).tickets,
            tickets == tickets_view(list@),
            claimable == won(tickets, i as nat, whose, false),
            claimed == won(tickets, i as nat, whose, true),
            texts(ids@) == winning_ids(tickets, i as nat, whose),
        decreases list.len() - i,
    {
        let ticket = &list[i];
        proof {
            assert(tickets[i as int] == ticket@);
            lemma_won_grows(tickets, (i + 1) as nat, whose, true, tickets.len());
            lemma_won_grows(tickets, (i + 1) as nat, whose, false, tickets.len());
        }
        if ticket.owner == who && ticket.prize != 0 {
            let ghost before = texts(ids@);
            ids.push(ticket_id(i as u64));
            assert(texts(ids@) =~= before.push(ticket_name(i as nat)));
            let sum: Option<u128> = if ticket.claimed {
                claimed.checked_add(ticket.prize)
            } else {
                claimable.checked_add(ticket.prize)
            };
            match sum {
                Some(total) => {
                    if ticket.claimed {
                        claimed = total;
                    } else {
                        claimable = total;
                    }
                },
                None => return Err(
                    ContractError::Overflow(OverflowError { operation: OverflowOperation::Add }),
                ),
            }
        }
        i = i + 1;
    }
    Ok(PrizeResponse { round_id, owner: owner.text, claimable, claimed, winning_ticket_ids: ids })
}

/// What a query shows of an account's referrer.
pub open spec fn shown_referrer(s: StateView, referee: AddrView) -> Result<
    Option<Seq<char>>,
    ErrorView,
> {
    match referee.verdict {
        Err(reason) => Err(ContractError::Std(reason)),
        Ok(who) => Ok(lookup(s.referrer, who)),
    }
}

/// Shows who referred an account.
pub fn query_referrer(state: &State, referee: AddrText) -> (result: Result<
    ReferrerResponse,
    ContractError,
>)
    requires
        state.wf(),
    ensures
        match shown_referrer(state@, referee@) {
            Ok(shown) => result matches Ok(r) && r@ == shown,
            Err(e) => result matches Err(error) && error@ == e,
        },
{
    match referee.verdict {
        Err(reason) => Err(ContractError::Std(reason)),
        Ok(who) => match state.referrer.get(&who) {
            Some(referrer) => Ok(ReferrerResponse { referrer: Some(referrer.clone()) }),
            None => Ok(ReferrerResponse { referrer: None }),
        },
    }
}

/// What a query shows of a referrer.
pub open spec fn shown_summary(s: StateView, addr: AddrView) -> Result<
    ReferralSummaryResponse<Seq<char>>,
    ErrorView,
> {
    match addr.verdict {
        Err(reason) => Err(ContractError::Std(reason)),
        Ok(who) => Ok(
            ReferralSummaryResponse {
                addr: who,
                denom: s.config.denom,
                pending: s.earned(who),
                referees: s.totals_of(who).referees,
                lifetime_earned: s.totals_of(who).lifetime_earned,
                lifetime_claimed: s.totals_of(who).lifetime_claimed,
            },
        ),
    }
}

/// Shows what a referrer has earned.
pub fn query_referral_summary(state: &State, addr: AddrText) -> (result: Result<
    ReferralSummaryResponse,
    ContractError,
>)
    requires
        state.wf(),
    ensures
        match shown_summary(state@, addr@) {
            Ok(shown) => result matches Ok(r) && r@ == shown,
            Err(e) => result matches Err(error) && error@ == e,
        },
{
    match addr.verdict {
        Err(reason) => Err(ContractError::Std(reason)),
        Ok(who) => {
            let totals = state.referrer_totals(&who);
            Ok(
                ReferralSummaryResponse {
                    pending: state.earned_by(&who),
                    addr: who,
                    denom: state.config.denom.clone(),
                    referees: totals.referees,
                    lifetime_earned: totals.lifetime_earned,
                    lifetime_claimed: totals.lifetime_claimed,
                },
            )
        },
    }
}

/// What a query shows of the treasury.
pub open spec fn shown_treasury(s: StateView) -> TreasuryBalanceResponse<Seq<char>> {
    TreasuryBalanceResponse { balance: s.treasury as u128, denom: s.config.denom }
}

/// Shows what the treasury holds.
pub fn query_treasury_balance(state: &State) -> (response: TreasuryBalanceResponse)
    ensures
        response@ == shown_treasury(state@),
{
    TreasuryBalanceResponse { balance: state.treasury, denom: state.config.denom.clone() }
}

} // verus!
