//! Ticket sales.
//!
//! Every payment is split once: the prize share joins the round's pool, the
//! referral share is credited to the buyer's referrer (or joins the pool where
//! there is none), and the rest is the treasury's. A bonus ticket is paid for by a
//! submitter, and all of that payment joins the pool.

use crate::beacon::bytes_view;
use crate::constants::MAX_TICKETS_PER_TX;
use crate::error::{add_overflow, ContractError, ErrorView, OverflowError, OverflowOperation};
use crate::host::{text_view, AddrText, AddrView, Env, InfoView, MessageInfo};
use crate::money::{assert_exact_payment, exact_payment_refusal};
use crate::outcome::{conforms, unless_refused, Outcome};
use crate::picks::{ascending, picks_refusal, quick_pick, quick_picked, validate_ticket_numbers};
use crate::referral::{
    bind_referrer, bound, buyer_referrer, count_up, credit_referral, credit_refusal, credited,
    normal_form, normalize_option, resolve_buyer_referrer,
};
use crate::response::{Event, EventView, Response, ResponseView};
use crate::split::SplitAmounts;
use crate::state::{
    in_place, rounds_view, tickets_view, LedgerView, RoundLedger, RoundView, State, StateView,
    Ticket, TicketView,
};
use crate::status::{status_str, RoundStatus};
use crate::text::{bool_text, bool_word, decimal, decimal_text};
use crate::ticket_ids::{ticket_id, ticket_name};
use crate::verify::{sha256, sha256_digest};
use vstd::prelude::*;
use vstd::utf8::encode_utf8;

verus! {

/// Whether someone owns one of the tickets.
pub open spec fn owns_one(tickets: Seq<TicketView>, who: Seq<char>) -> bool {
    exists|i: int| 0 <= i < tickets.len() && #[trigger] tickets[i].owner == who
}

fn is_player(tickets: &Vec<Ticket>, who: &String) -> (yes: bool)
    ensures
        yes == owns_one(tickets_view(tickets@), who@),
{
    let ghost shown = tickets_view(tickets@);
    let mut i: usize = 0;
    while i < tickets.len()
        invariant
            i <= tickets.len(),
            shown == tickets_view(tickets@),
            forall|j: int| 0 <= j < i ==> #[trigger] shown[j].owner != who@,
        decreases tickets.len() - i,
    {
        if tickets[i].owner == *who {
            assert(shown[i as int].owner == who@);
            return true;
        }
        i = i + 1;
    }
    false
}

/// The price of some tickets.
pub open spec fn price_of(s: StateView, count: u32) -> nat {
    (s.config.ticket_price.amount * count) as nat
}

/// Why tickets of the current round cannot be sold for the coins that were sent: the
/// price in the configured denomination, and nothing else, is accepted.
pub open spec fn sale_refusal(s: StateView, info: InfoView, count: u32) -> Option<ErrorView> {
    let total = price_of(s, count);
    let payment = exact_payment_refusal(info.funds, s.config.denom, total);
    let status = s.rounds.last().round.status;
    if count == 0 || count > MAX_TICKETS_PER_TX {
        Some(ContractError::InvalidTicketCount { count, max: MAX_TICKETS_PER_TX })
    } else if total > u128::MAX {
        Some(ContractError::Overflow(OverflowError { operation: OverflowOperation::Mul }))
    } else if payment is Some {
        Some(ContractError::Shared(payment->0))
    } else if status != RoundStatus::Open {
        Some(ContractError::RoundNotOpen { round_id: s.current(), status: status.word() })
    } else {
        None
    }
}

/// Checks that tickets of the current round can be sold for the coins that were
/// sent, and says what they cost.
fn check_sale(state: &State, info: &MessageInfo, count: u32) -> (result: Result<
    u128,
    ContractError,
>)
    requires
        state.wf(),
    ensures
        match sale_refusal(state@, info@, count) {
            Some(e) => result matches Err(error) && error@ == e,
            None => result matches Ok(total) && total == price_of(state@, count),
        },
{
    if count == 0 || count > MAX_TICKETS_PER_TX {
        return Err(ContractError::InvalidTicketCount { count, max: MAX_TICKETS_PER_TX });
    }
    let total: u128 = match state.config.ticket_price.amount.checked_mul(count as u128) {
        Some(total) => total,
        None => return Err(
            ContractError::Overflow(OverflowError { operation: OverflowOperation::Mul }),
        ),
    };
    match assert_exact_payment(info.funds.as_slice(), &state.config.denom, total) {
        Ok(()) => {},
        Err(e) => return Err(ContractError::Shared(e)),
    }
    let at: usize = state.rounds.len() - 1;
    assert(state@.rounds.last() == state.rounds@[at as int]@);
    let status = state.rounds[at].round.status;
    if !status.accepts_tickets() {
        return Err(
            ContractError::RoundNotOpen {
                round_id: state.rounds.len() as u64,
                status: status_str(&status),
            },
        );
    }
    Ok(total)
}

/// Why the picks for the first ticket, where there are any, are refused.
pub open spec fn first_picks_refusal(s: StateView, numbers: Option<Seq<u8>>) -> Option<ErrorView> {
    match numbers {
        Some(n) => picks_refusal(n, s.config.numbers_per_ticket, s.config.number_max),
        None => None,
    }
}

/// The picks for the first ticket in order, where there are any.
pub open spec fn first_picks(numbers: Option<Seq<u8>>) -> Option<Seq<u8>> {
    match numbers {
        Some(n) => Some(ascending(n)),
        None => None,
    }
}

fn check_first_picks(state: &State, numbers: &Option<Vec<u8>>) -> (result: Result<
    Option<Vec<u8>>,
    ContractError,
>)
    ensures
        match first_picks_refusal(state@, bytes_view(*numbers)) {
            Some(e) => result matches Err(error) && error@ == e,
            None => result matches Ok(picks) && bytes_view(picks) == first_picks(
                bytes_view(*numbers),
            ),
        },
{
    match numbers {
        Some(n) => match validate_ticket_numbers(
            n.as_slice(),
            state.config.numbers_per_ticket,
            state.config.number_max,
        ) {
            Ok(picks) => Ok(Some(picks)),
            Err(e) => Err(e),
        },
        None => Ok(None),
    }
}

/// The picks of the `i`-th ticket of a sale.
pub open spec fn bought_picks(
    s: StateView,
    env: Env,
    owner: Seq<char>,
    numbers: Option<Seq<u8>>,
    i: int,
) -> Seq<u8> {
    if i == 0 && numbers is Some {
        ascending(numbers->0)
    } else {
        quick_picked(
            env,
            owner,
            s.current(),
            (s.rounds.last().tickets.len() + i) as u64,
            s.config.numbers_per_ticket,
            s.config.number_max,
        )
    }
}

/// The tickets of a sale.
pub open spec fn bought_tickets(
    s: StateView,
    env: Env,
    owner: Seq<char>,
    count: u32,
    numbers: Option<Seq<u8>>,
    free: bool,
) -> Seq<TicketView> {
    Seq::new(
        count as nat,
        |i: int| TicketView::bought(owner, bought_picks(s, env, owner, numbers, i), free),
    )
}

/// What a ticket adds to the running digest of its round: the digest so far, the
/// owner, the ticket's id and its picks, one after the other.
pub open spec fn entropy_message(
    entropy: Seq<u8>,
    owner: Seq<char>,
    id: Seq<char>,
    picks: Seq<u8>,
) -> Seq<u8> {
    entropy + encode_utf8(owner) + encode_utf8(id) + picks
}

/// The running digest after some tickets, of which the first is number `first` of its
/// round.
pub open spec fn entropy_after(entropy: Seq<u8>, first: nat, tickets: Seq<TicketView>) -> Seq<u8>
    decreases tickets.len(),
{
    if tickets.len() == 0 {
        entropy
    } else {
        let t = tickets.last();
        sha256_digest(
            entropy_message(
                entropy_after(entropy, first, tickets.drop_last()),
                t.owner,
                ticket_name((first + tickets.len() - 1) as nat),
                t.numbers,
            ),
        )
    }
}

/// Digesting tickets in two batches is the same as digesting them in one.
pub proof fn lemma_entropy_joined(
    entropy: Seq<u8>,
    first: nat,
    a: Seq<TicketView>,
    b: Seq<TicketView>,
)
    ensures
        entropy_after(entropy, first, a + b) == entropy_after(
            entropy_after(entropy, first, a),
            first + a.len(),
            b,
        ),
    decreases b.len(),
{
    if b.len() == 0 {
        assert(a + b =~= a);
    } else {
        lemma_entropy_joined(entropy, first, a, b.drop_last());
        assert((a + b).drop_last() =~= a + b.drop_last());
        assert((a + b).last() == b.last());
    }
}

/// The digest depends on the owners and the picks of the tickets alone.
pub proof fn lemma_entropy_same(
    entropy: Seq<u8>,
    first: nat,
    a: Seq<TicketView>,
    b: Seq<TicketView>,
)
    requires
        a.len() == b.len(),
        forall|i: int|
            0 <= i < a.len() ==> (#[trigger] a[i]).owner == b[i].owner && a[i].numbers
                == b[i].numbers,
    ensures
        entropy_after(entropy, first, a) == entropy_after(entropy, first, b),
    decreases a.len(),
{
    if a.len() > 0 {
        assert(a[a.len() - 1].owner == b[a.len() - 1].owner);
        assert forall|i: int| 0 <= i < a.len() - 1 implies (#[trigger] a.drop_last()[i]).owner
            == b.drop_last()[i].owner && a.drop_last()[i].numbers == b.drop_last()[i].numbers by {
            assert(a.drop_last()[i] == a[i]);
        }
        lemma_entropy_same(entropy, first, a.drop_last(), b.drop_last());
    }
}

fn append_bytes(bytes: &mut Vec<u8>, more: &[u8])
    ensures
        final(bytes)@ == old(bytes)@ + more@,
{
    let ghost before = bytes@;
    let mut i: usize = 0;
    assert(before + more@.take(0) =~= before);
    while i < more.len()
        invariant
            i <= more.len(),
            bytes@ == before + more@.take(i as int),
        decreases more.len() - i,
    {
        bytes.push(more[i]);
        i = i + 1;
        assert(bytes@ =~= before + more@.take(i as int));
    }
    assert(more@.take(i as int) =~= more@);
}

/// Writes down what a ticket adds to the running digest of its round.
pub fn write_entropy_message(entropy: &[u8], owner: &str, id: &str, picks: &[u8]) -> (message: Vec<
    u8,
>)
    ensures
        message@ == entropy_message(entropy@, owner@, id@, picks@),
{
    let mut message: Vec<u8> = Vec::new();
    append_bytes(&mut message, entropy);
    append_bytes(&mut message, owner.as_bytes());
    append_bytes(&mut message, id.as_bytes());
    append_bytes(&mut message, picks);
    assert(message@ =~= entropy_message(entropy@, owner@, id@, picks@));
    message
}

/// The ledger of a round after a sale.
pub open spec fn sold(
    ledger: LedgerView,
    owner: Seq<char>,
    tickets: Seq<TicketView>,
    pool_added: nat,
) -> LedgerView {
    let r = ledger.round;
    LedgerView {
        round: RoundView {
            pool: r.pool + pool_added,
            ticket_count: if r.ticket_count + tickets.len() <= u64::MAX {
                (r.ticket_count + tickets.len()) as u64
            } else {
                u64::MAX
            },
            player_count: if owns_one(ledger.tickets, owner) {
                r.player_count
            } else {
                count_up(r.player_count)
            },
            ticket_entropy: entropy_after(r.ticket_entropy, ledger.tickets.len(), tickets),
            ..r
        },
        tickets: ledger.tickets + tickets,
        ..ledger
    }
}

/// Adds the tickets of a sale to a round.
fn add_tickets(
    ledger: &mut RoundLedger,
    env: &Env,
    owner: &String,
    count: u32,
    given: Option<Vec<u8>>,
    free: bool,
    numbers_per_ticket: u8,
    number_max: u8,
    Ghost(s): Ghost<StateView>,
    Ghost(numbers): Ghost<Option<Seq<u8>>>,
)
    requires
        number_max > 0,
        old(ledger)@ == s.rounds.last(),
        old(ledger).round.id == s.current(),
        s.config.numbers_per_ticket == numbers_per_ticket,
        s.config.number_max == number_max,
        bytes_view(given) == first_picks(numbers),
    ensures
        final(ledger).randomness == old(ledger).randomness,
        ({
            let fresh = bought_tickets(s, *env, owner@, count, numbers, free);
            &&& tickets_view(final(ledger).tickets@) == tickets_view(old(ledger).tickets@) + fresh
            &&& final(ledger).round@ == (RoundView {
                ticket_entropy: entropy_after(
                    old(ledger).round@.ticket_entropy,
                    old(ledger).tickets@.len(),
                    fresh,
                ),
                ..old(ledger).round@
            })
        }),
{
    let round_id = ledger.round.id;
    let ghost before = tickets_view(ledger.tickets@);
    let ghost round = ledger.round@;
    let ghost fresh = bought_tickets(s, *env, owner@, count, numbers, free);
    let mut first: Option<Vec<u8>> = given;
    let mut i: u32 = 0;
    assert(before + fresh.take(0) =~= before);
    while i < count
        invariant
            i <= count,
            number_max > 0,
            round_id == s.current(),
            before == s.rounds.last().tickets,
            round == s.rounds.last().round,
            s.config.numbers_per_ticket == numbers_per_ticket,
            s.config.number_max == number_max,
            fresh == bought_tickets(s, *env, owner@, count, numbers, free),
            i == 0 ==> bytes_view(first) == first_picks(numbers),
            i > 0 ==> first is None,
            ledger.round@ == (RoundView {
                ticket_entropy: entropy_after(
                    round.ticket_entropy,
                    before.len(),
                    fresh.take(i as int),
                ),
                ..round
            }),
            ledger.randomness == old(ledger).randomness,
            tickets_view(ledger.tickets@) == before + fresh.take(i as int),
        decreases count - i,
    {
        let seq: u64 = ledger.tickets.len() as u64;
        assert(seq == before.len() + i) by {
            assert(tickets_view(ledger.tickets@).len() == before.len() + i);
        }
        let picks: Vec<u8> = match first {
            Some(p) => p,
            None => quick_pick(env, owner.as_str(), round_id, seq, numbers_per_ticket, number_max),
        };
        first = None;
        let message = write_entropy_message(
            &ledger.round.ticket_entropy,
            owner.as_str(),
            ticket_id(seq).as_str(),
            picks.as_slice(),
        );
        ledger.round.ticket_entropy = sha256(message.as_slice());
        let ghost tickets = ledger.tickets@;
        ledger.tickets.push(
            Ticket {
                owner: owner.clone(),
                numbers: picks,
                matches: 0,
                prize: 0,
                claimed: false,
                free,
            },
        );
        proof {
            let ticket = ledger.tickets@.last()@;
            assert(ticket =~= fresh[i as int]);
            assert(tickets_view(ledger.tickets@) =~= tickets_view(tickets).push(ticket));
            assert(before + fresh.take(i + 1) =~= (before + fresh.take(i as int)).push(
                fresh[i as int],
            ));
            assert(fresh.take(i + 1).drop_last() =~= fresh.take(i as int));
            assert(fresh.take(i + 1).last() == fresh[i as int]);
        }
        i = i + 1;
    }
    assert(fresh.take(count as int) =~= fresh);
}

/// Adds a sale to the current round and says whether the owner is new to it.
fn record_tickets(
    state: &mut State,
    env: &Env,
    owner: &String,
    count: u32,
    pool: u128,
    given: Option<Vec<u8>>,
    free: bool,
    Ghost(numbers): Ghost<Option<Seq<u8>>>,
) -> (new_player: bool)
    requires
        old(state).wf(),
        pool >= old(state)@.rounds.last().round.pool,
        bytes_view(given) == first_picks(numbers),
    ensures
        final(state).wf(),
        new_player == !owns_one(old(state)@.rounds.last().tickets, owner@),
        final(state)@ == old(state)@.with_ledger(
            old(state)@.current(),
            sold(
                old(state)@.rounds.last(),
                owner@,
                bought_tickets(old(state)@, *env, owner@, count, numbers, free),
                (pool - old(state)@.rounds.last().round.pool) as nat,
            ),
        ),
        old(state)@.rounds.last().tickets.len() + count <= u64::MAX,
{
    let ghost s = state@;
    let at: usize = state.rounds.len() - 1;
    assert(in_place(s.rounds, at as int));
    assert(s.rounds.last() == state.rounds@[at as int]@);
    let numbers_per_ticket = state.config.numbers_per_ticket;
    let number_max = state.config.number_max;
    let new_player: bool = !is_player(&state.rounds[at].tickets, owner);
    let ledger: &mut RoundLedger = &mut state.rounds[at];
    add_tickets(
        ledger,
        env,
        owner,
        count,
        given,
        free,
        numbers_per_ticket,
        number_max,
        Ghost(s),
        Ghost(numbers),
    );
    let sold_now: u64 = ledger.tickets.len() as u64;
    assert(sold_now == tickets_view(ledger.tickets@).len());
    ledger.round.pool = pool;
    ledger.round.ticket_count = ledger.round.ticket_count.saturating_add(count as u64);
    if new_player {
        ledger.round.player_count = ledger.round.player_count.saturating_add(1);
    }
    let ghost grown = ledger@;
    proof {
        assert(grown =~= sold(
            s.rounds.last(),
            owner@,
            bought_tickets(s, *env, owner@, count, numbers, free),
            (pool - s.rounds.last().round.pool) as nat,
        ));
        assert(rounds_view(state.rounds@) =~= s.rounds.update(at as int, grown));
        assert forall|i: int| 0 <= i < state@.rounds.len() implies #[trigger] in_place(
            state@.rounds,
            i,
        ) by {
            assert(in_place(s.rounds, i));
        }
    }
    new_player
}

/// Whom a purchase pays a referral share, given what that share is.
pub open spec fn paid_referrer(
    s: StateView,
    buyer: Seq<char>,
    code: Option<Seq<char>>,
    referral: nat,
) -> Option<Seq<char>> {
    if referral == 0 {
        None
    } else {
        buyer_referrer(s, buyer, code)
    }
}

/// What a purchase for `total` adds to the pool.
pub open spec fn pool_share(
    s: StateView,
    buyer: Seq<char>,
    code: Option<Seq<char>>,
    total: nat,
) -> nat {
    let referral = s.config.split.referral_of(total);
    s.config.split.prize_of(total) + match paid_referrer(s, buyer, code, referral) {
        Some(_) => 0,
        None => referral,
    }
}

/// Why a purchase is refused; the code is in its normal form.
pub open spec fn buy_refusal(
    s: StateView,
    info: InfoView,
    count: u32,
    numbers: Option<Seq<u8>>,
    code: Option<Seq<char>>,
) -> Option<ErrorView> {
    let total = price_of(s, count);
    let split = s.config.split;
    let referral = split.referral_of(total);
    if s.config.paused {
        Some(ContractError::Paused)
    } else if sale_refusal(s, info, count) is Some {
        sale_refusal(s, info, count)
    } else if split.apply_refusal(total) is Some {
        Some(ContractError::Shared(split.apply_refusal(total)->0))
    } else if s.treasury + split.treasury_of(total) > u128::MAX {
        Some(ContractError::Overflow(add_overflow()))
    } else {
        match paid_referrer(s, info.sender, code, referral) {
            Some(referrer) if credit_refusal(s, referrer, referral) is Some => credit_refusal(
                s,
                referrer,
                referral,
            ),
            _ => if s.rounds.last().round.pool + pool_share(s, info.sender, code, total)
                > u128::MAX {
                Some(ContractError::Overflow(add_overflow()))
            } else {
                first_picks_refusal(s, numbers)
            },
        }
    }
}

/// The state in which a buyer is bound to the referrer, unless the buyer already is,
/// and the referrer has received the referral share.
pub open spec fn referred(
    s: StateView,
    buyer: Seq<char>,
    referrer: Option<Seq<char>>,
    amount: nat,
) -> StateView {
    match referrer {
        Some(r) => {
            let b = if s.referrer.dom().contains(buyer) {
                s
            } else {
                bound(s, buyer, r)
            };
            if amount == 0 {
                b
            } else {
                credited(b, r, amount)
            }
        },
        None => s,
    }
}

/// The state after a purchase.
pub open spec fn bought(
    s: StateView,
    env: Env,
    buyer: Seq<char>,
    count: u32,
    numbers: Option<Seq<u8>>,
    code: Option<Seq<char>>,
) -> StateView {
    let total = price_of(s, count);
    let split = s.config.split;
    let paid = StateView { treasury: s.treasury + split.treasury_of(total), ..s };
    referred(
        paid.with_ledger(
            s.current(),
            sold(
                s.rounds.last(),
                buyer,
                bought_tickets(s, env, buyer, count, numbers, false),
                pool_share(s, buyer, code, total),
            ),
        ),
        buyer,
        buyer_referrer(s, buyer, code),
        split.referral_of(total),
    )
}

/// The event of a purchase.
pub open spec fn buy_event(
    s: StateView,
    buyer: Seq<char>,
    count: u32,
    code: Option<Seq<char>>,
) -> EventView {
    let total = price_of(s, count);
    let split = s.config.split;
    let ledger = s.rounds.last();
    let first = ledger.tickets.len();
    let referral = split.referral_of(total);
    let referrer = paid_referrer(s, buyer, code, referral);
    let added = pool_share(s, buyer, code, total);
    EventView::named("winsaf/buy"@).attr("round_id"@, decimal(s.current() as nat)).attr(
        "buyer"@,
        buyer,
    ).attr("count"@, decimal(count as nat)).attr("paid"@, decimal(total)).attr(
        "prize_added"@,
        decimal(added),
    ).attr("treasury_added"@, decimal(split.treasury_of(total))).attr(
        "referral_credited"@,
        decimal(
            match referrer {
                Some(_) => referral,
                None => 0,
            },
        ),
    ).attr(
        "referrer"@,
        match referrer {
            Some(r) => r,
            None => ""@,
        },
    ).attr("pool"@, decimal(ledger.round.pool + added)).attr(
        "first_ticket_id"@,
        ticket_name(first),
    ).attr("last_ticket_id"@, ticket_name((first + count - 1) as nat)).attr(
        "new_player"@,
        bool_word(!owns_one(ledger.tickets, buyer)),
    )
}

/// What a purchase leads to; the code is in its normal form.
pub open spec fn buy_outcome(
    s: StateView,
    env: Env,
    info: InfoView,
    count: u32,
    numbers: Option<Seq<u8>>,
    code: Option<Seq<char>>,
) -> Outcome {
    unless_refused(
        buy_refusal(s, info, count, numbers, code),
        bought(s, env, info.sender, count, numbers, code),
        ResponseView::recording(buy_event(s, info.sender, count, code)),
    )
}

/// A purchase that has been priced and not yet recorded.
struct Purchase {
    total: u128,
    parts: SplitAmounts,
    /// The treasury after the purchase.
    treasury: u128,
    /// Whom the buyer is bound to, from now on at the latest.
    referrer: Option<String>,
    /// What joins the pool, and the pool after that.
    added: u128,
    pool: u128,
}

/// Whether a purchase has the amounts that the state gives it.
spec fn is_priced(
    p: Purchase,
    s: StateView,
    buyer: Seq<char>,
    count: u32,
    code: Option<Seq<char>>,
) -> bool {
    let total = price_of(s, count);
    let split = s.config.split;
    &&& p.total == total
    &&& p.parts.prize == split.prize_of(total)
    &&& p.parts.referral == split.referral_of(total)
    &&& p.parts.treasury == split.treasury_of(total)
    &&& p.treasury == s.treasury + split.treasury_of(total)
    &&& text_view(p.referrer) == buyer_referrer(s, buyer, code)
    &&& p.added == pool_share(s, buyer, code, total)
    &&& p.pool == s.rounds.last().round.pool + p.added
    &&& p.parts.referral > 0 ==> (p.referrer matches Some(r) ==> credit_refusal(
        s,
        r@,
        p.parts.referral as nat,
    ) is None)
}

/// Prices a purchase or refuses it, without looking at the picks.
fn price_purchase(
    state: &State,
    info: &MessageInfo,
    count: u32,
    code: &Option<String>,
    Ghost(numbers): Ghost<Option<Seq<u8>>>,
) -> (result: Result<Purchase, ContractError>)
    requires
        state.wf(),
    ensures
        match result {
            Ok(p) => is_priced(p, state@, info@.sender, count, text_view(*code)) && buy_refusal(
                state@,
                info@,
                count,
                numbers,
                text_view(*code),
            ) == first_picks_refusal(state@, numbers) && 1 <= count,
            Err(error) => buy_refusal(state@, info@, count, numbers, text_view(*code)) == Some(
                error@,
            ),
        },
{
    if state.config.paused {
        return Err(ContractError::Paused);
    }
    let total: u128 = match check_sale(state, info, count) {
        Ok(total) => total,
        Err(e) => return Err(e),
    };
    let parts: SplitAmounts = match state.config.split.apply(total) {
        Ok(parts) => parts,
        Err(e) => return Err(ContractError::Shared(e)),
    };
    let treasury: u128 = match state.treasury.checked_add(parts.treasury) {
        Some(sum) => sum,
        None => return Err(
            ContractError::Overflow(OverflowError { operation: OverflowOperation::Add }),
        ),
    };
    let referrer: Option<String> = resolve_buyer_referrer(state, &info.sender, code);
    let added: u128 = match &referrer {
        Some(r) if parts.referral > 0 => {
            if state.earned_by(r).checked_add(parts.referral).is_none() || state.referrer_totals(
                r,
            ).lifetime_earned.checked_add(parts.referral).is_none() {
                return Err(
                    ContractError::Overflow(OverflowError { operation: OverflowOperation::Add }),
                );
            }
            parts.prize
        },
        _ => parts.prize + parts.referral,
    };
    let at: usize = state.rounds.len() - 1;
    assert(state@.rounds.last() == state.rounds@[at as int]@);
    let pool: u128 = match state.rounds[at].round.pool.checked_add(added) {
        Some(sum) => sum,
        None => return Err(
            ContractError::Overflow(OverflowError { operation: OverflowOperation::Add }),
        ),
    };
    Ok(Purchase { total, parts, treasury, referrer, added, pool })
}

/// Binds a buyer to the referrer where that is new, and pays the referral share.
fn pay_referrer(state: &mut State, buyer: &String, referrer: &Option<String>, amount: u128)
    requires
        old(state).wf(),
        amount > 0 ==> (referrer matches Some(r) ==> credit_refusal(
            old(state)@,
            r@,
            amount as nat,
        ) is None),
    ensures
        final(state).wf(),
        final(state)@ == referred(old(state)@, buyer@, text_view(*referrer), amount as nat),
{
    match referrer {
        None => {},
        Some(r) => {
            if state.referrer.get(buyer).is_none() {
                bind_referrer(state, buyer, r);
            }
            if amount > 0 {
                let _ = credit_referral(state, r, amount);
            }
        },
    }
}

/// Writes the event of a purchase of the tickets `first` to `last` of its round.
fn describe_purchase(
    round_id: u64,
    buyer: &String,
    count: u32,
    first: u64,
    last: u64,
    new_player: bool,
    purchase: Purchase,
    Ghost(s): Ghost<StateView>,
    Ghost(code): Ghost<Option<Seq<char>>>,
) -> (event: Event)
    requires
        is_priced(purchase, s, buyer@, count, code),
        round_id == s.current(),
        first == s.rounds.last().tickets.len(),
        new_player == !owns_one(s.rounds.last().tickets, buyer@),
        last == first + count - 1,
    ensures
        event@ == buy_event(s, buyer@, count, code),
{
    let (credited, referrer): (u128, String) = match purchase.referrer {
        Some(r) if purchase.parts.referral > 0 => (purchase.parts.referral, r),
        _ => (0, "".to_owned()),
    };
    Event::new("winsaf/buy").attr("round_id", decimal_text(round_id as u128)).attr(
        "buyer",
        buyer.clone(),
    ).attr("count", decimal_text(count as u128)).attr("paid", decimal_text(purchase.total)).attr(
        "prize_added",
        decimal_text(purchase.added),
    ).attr("treasury_added", decimal_text(purchase.parts.treasury)).attr(
        "referral_credited",
        decimal_text(credited),
    ).attr("referrer", referrer).attr("pool", decimal_text(purchase.pool)).attr(
        "first_ticket_id",
        ticket_id(first),
    ).attr("last_ticket_id", ticket_id(last)).attr("new_player", bool_text(new_player))
}

/// Sells tickets of the current round; the code is in its normal form.
pub fn buy_with_normal_code(
    state: &mut State,
    env: &Env,
    info: &MessageInfo,
    count: u32,
    numbers: Option<Vec<u8>>,
    code: Option<String>,
) -> (result: Result<Response, ContractError>)
    requires
        old(state).wf(),
    ensures
        final(state).wf(),
        conforms(
            old(state)@,
            final(state)@,
            result,
            buy_outcome(old(state)@, *env, info@, count, bytes_view(numbers), text_view(code)),
        ),
{
    let ghost s = state@;
    let buyer = &info.sender;
    let purchase: Purchase = match price_purchase(
        state,
        info,
        count,
        &code,
        Ghost(bytes_view(numbers)),
    ) {
        Ok(purchase) => purchase,
        Err(e) => return Err(e),
    };
    let picks: Option<Vec<u8>> = match check_first_picks(state, &numbers) {
        Ok(picks) => picks,
        Err(e) => return Err(e),
    };
    let round_id: u64 = state.rounds.len() as u64;
    let at: usize = state.rounds.len() - 1;
    let first: u64 = state.rounds[at].tickets.len() as u64;
    assert(s.rounds.last() == state.rounds@[at as int]@);
    let new_player = record_tickets(
        state,
        env,
        buyer,
        count,
        purchase.pool,
        picks,
        false,
        Ghost(bytes_view(numbers)),
    );
    let last: u64 = first + (count as u64 - 1);
    state.treasury = purchase.treasury;
    pay_referrer(state, buyer, &purchase.referrer, purchase.parts.referral);
    assert(state@ =~= bought(s, *env, buyer@, count, bytes_view(numbers), text_view(code)));
    let event = describe_purchase(
        round_id,
        buyer,
        count,
        first,
        last,
        new_player,
        purchase,
        Ghost(s),
        Ghost(text_view(code)),
    );
    Ok(Response::recording(event))
}

/// Buys tickets of the current round for exactly their price.
pub fn execute_buy_tickets(
    state: &mut State,
    env: &Env,
    info: &MessageInfo,
    count: u32,
    numbers: Option<Vec<u8>>,
    referral_code: Option<String>,
) -> (result: Result<Response, ContractError>)
    requires
        old(state).wf(),
    ensures
        final(state).wf(),
        conforms(
            old(state)@,
            final(state)@,
            result,
            buy_outcome(
                old(state)@,
                *env,
                info@,
                count,
                bytes_view(numbers),
                normal_form(text_view(referral_code)),
            ),
        ),
{
    let code = normalize_option(&referral_code);
    buy_with_normal_code(state, env, info, count, numbers, code)
}

/// Why a grant of bonus tickets is refused.
pub open spec fn grant_refusal(
    s: StateView,
    info: InfoView,
    owner: AddrView,
    count: u32,
    numbers: Option<Seq<u8>>,
) -> Option<ErrorView> {
    if s.config.paused {
        Some(ContractError::Paused)
    } else if !s.config.may_submit(info.sender) {
        Some(ContractError::UnauthorizedSubmitter)
    } else if owner.verdict is Err {
        Some(ContractError::Std(owner.verdict->Err_0))
    } else if sale_refusal(s, info, count) is Some {
        sale_refusal(s, info, count)
    } else if s.rounds.last().round.pool + price_of(s, count) > u128::MAX {
        Some(ContractError::Overflow(add_overflow()))
    } else {
        first_picks_refusal(s, numbers)
    }
}

/// The state after a grant of bonus tickets.
pub open spec fn granted(
    s: StateView,
    env: Env,
    owner: Seq<char>,
    count: u32,
    numbers: Option<Seq<u8>>,
) -> StateView {
    s.with_ledger(
        s.current(),
        sold(
            s.rounds.last(),
            owner,
            bought_tickets(s, env, owner, count, numbers, true),
            price_of(s, count),
        ),
    )
}

/// The event of a grant of bonus tickets.
pub open spec fn grant_event(
    s: StateView,
    sponsor: Seq<char>,
    owner: Seq<char>,
    count: u32,
) -> EventView {
    let ledger = s.rounds.last();
    let first = ledger.tickets.len();
    let total = price_of(s, count);
    EventView::named("winsaf/grant_bonus"@).attr("round_id"@, decimal(s.current() as nat)).attr(
        "owner"@,
        owner,
    ).attr("sponsor"@, sponsor).attr("count"@, decimal(count as nat)).attr(
        "paid"@,
        decimal(total),
    ).attr("pool"@, decimal(ledger.round.pool + total)).attr(
        "first_ticket_id"@,
        ticket_name(first),
    ).attr("last_ticket_id"@, ticket_name((first + count - 1) as nat)).attr(
        "new_player"@,
        bool_word(!owns_one(ledger.tickets, owner)),
    )
}

/// What a grant of bonus tickets leads to.
pub open spec fn grant_outcome(
    s: StateView,
    env: Env,
    info: InfoView,
    owner: AddrView,
    count: u32,
    numbers: Option<Seq<u8>>,
) -> Outcome {
    let who = owner.verdict->Ok_0;
    unless_refused(
        grant_refusal(s, info, owner, count, numbers),
        granted(s, env, who, count, numbers),
        ResponseView::recording(grant_event(s, info.sender, who, count)),
    )
}

/// Gives tickets of the current round to an account; the sender pays exactly their
/// price, and all of it joins the pool.
pub fn execute_grant_bonus_ticket(
    state: &mut State,
    env: &Env,
    info: &MessageInfo,
    owner: AddrText,
    count: u32,
    numbers: Option<Vec<u8>>,
) -> (result: Result<Response, ContractError>)
    requires
        old(state).wf(),
    ensures
        final(state).wf(),
        conforms(
            old(state)@,
            final(state)@,
            result,
            grant_outcome(old(state)@, *env, info@, owner@, count, bytes_view(numbers)),
        ),
{
    let ghost s = state@;
    if state.config.paused {
        return Err(ContractError::Paused);
    }
    if !state.config.is_submitter(&info.sender) {
        return Err(ContractError::UnauthorizedSubmitter);
    }
    let who: String = match owner.verdict {
        Ok(address) => address,
        Err(reason) => return Err(ContractError::Std(reason)),
    };
    let total: u128 = match check_sale(state, info, count) {
        Ok(total) => total,
        Err(e) => return Err(e),
    };
    let round_id: u64 = state.rounds.len() as u64;
    let at: usize = state.rounds.len() - 1;
    assert(s.rounds.last() == state.rounds@[at as int]@);
    let pool: u128 = match state.rounds[at].round.pool.checked_add(total) {
        Some(sum) => sum,
        None => return Err(
            ContractError::Overflow(OverflowError { operation: OverflowOperation::Add }),
        ),
    };
    let picks: Option<Vec<u8>> = match check_first_picks(state, &numbers) {
        Ok(picks) => picks,
        Err(e) => return Err(e),
    };
    let first: u64 = state.rounds[at].tickets.len() as u64;
    let new_player = record_tickets(
        state,
        env,
        &who,
        count,
        pool,
        picks,
        true,
        Ghost(bytes_view(numbers)),
    );
    let last: u64 = first + (count as u64 - 1);
    let event = Event::new("winsaf/grant_bonus").attr(
        "round_id",
        decimal_text(round_id as u128),
    ).attr("owner", who).attr("sponsor", info.sender.clone()).attr(
        "count",
        decimal_text(count as u128),
    ).attr("paid", decimal_text(total)).attr("pool", decimal_text(pool)).attr(
        "first_ticket_id",
        ticket_id(first),
    ).attr("last_ticket_id", ticket_id(last)).attr("new_player", bool_text(new_player));
    Ok(Response::recording(event))
}

} // verus!
