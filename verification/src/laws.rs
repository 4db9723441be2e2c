//! What players, referrers and operators can rely on, whatever requests arrive.

use crate::accounts::lemma_sent;
use crate::admin::{not_admin, pause_outcome};
use crate::beacon::bytes_view;
use crate::cancel::{after_cancel, cancel_refusal, cancelled};
use crate::codes::{normal_code_refusal, normalized};
use crate::constants::TICKET_ID_WIDTH;
use crate::contract::{execute_outcome, migrate_outcome};
use crate::error::{ContractError, ErrorView};
use crate::host::{text_view, AddrView, Env, InfoView};
use crate::msg::{ExecuteMsg, TicketInfoView};
use crate::outcome::state_after;
use crate::queries::{is_listed, is_won_by, listing, shown_referrer, tickets_of, won};
use crate::randomness::{pending_refusal, with_request};
use crate::referral::{bind_outcome, claim_referral_outcome, normal_form, requested_referrer};
use crate::response::ResponseView;
use crate::rounds::{
    claim_outcome, claim_refusal, close_outcome, draw_of, draw_outcome, draw_refusal, drawable,
    drawn, settled,
};
use crate::sales::{bought, bought_picks, bought_tickets, buy_outcome, pool_share, price_of, sold};
use crate::settings::{lemma_change_keeps, SetConfigArgs};
use crate::soundness::{ledger_sound, sound, totals_sound, unclaimed, undrawn};
use crate::state::{
    in_place, ConfigView, LedgerView, RandomnessMode, RequestView, StateView, TicketView,
    VerifyMode,
};
use crate::status::RoundStatus;
use crate::text::{lemma_lex_irreflexive, lemma_lex_transitive, lex_lt};
use crate::ticket_ids::{
    law_ticket_ids_sort_in_purchase_order, lemma_named_ticket, named_ticket, names_ticket, tens,
    ticket_name,
};
use crate::verify::{sha256_digest, PairingAnswer};
use vstd::prelude::*;
use vstd::utf8::encode_utf8;

verus! {

/// A refused request leaves everything as it was.
pub proof fn law_refusal_changes_nothing(s: StateView, env: Env, info: InfoView, msg: ExecuteMsg)
    requires
        execute_outcome(s, env, info, msg) is Err,
    ensures
        state_after(s, execute_outcome(s, env, info, msg)) == s,
{
}

/// Whoever has a referrer keeps it.
pub proof fn law_bindings_are_immutable(
    s: StateView,
    env: Env,
    info: InfoView,
    msg: ExecuteMsg,
    who: Seq<char>,
)
    requires
        s.referrer.dom().contains(who),
    ensures
        ({
            let next = state_after(s, execute_outcome(s, env, info, msg));
            next.referrer.dom().contains(who) && next.referrer[who] == s.referrer[who]
        }),
{
}

/// A registered code stays with its owner.
pub proof fn law_codes_keep_their_owner(
    s: StateView,
    env: Env,
    info: InfoView,
    msg: ExecuteMsg,
    code: Seq<char>,
)
    requires
        s.codes.dom().contains(code),
    ensures
        ({
            let next = state_after(s, execute_outcome(s, env, info, msg));
            next.codes.dom().contains(code) && next.codes[code] == s.codes[code]
        }),
{
}

/// A purchase with someone's code binds a buyer who has no referrer yet, whatever the
/// referral share is, and credits the share to the one whom the buyer is bound to
/// afterwards.
pub proof fn law_purchase_by_code_binds(
    s: StateView,
    env: Env,
    info: InfoView,
    count: u32,
    numbers: Option<Seq<u8>>,
    code: Seq<char>,
)
    requires
        buy_outcome(s, env, info, count, numbers, Some(code)) is Ok,
        s.codes.dom().contains(code),
        s.codes[code] != info.sender,
    ensures
        ({
            let next = state_after(s, buy_outcome(s, env, info, count, numbers, Some(code)));
            let referrer = if s.referrer.dom().contains(info.sender) {
                s.referrer[info.sender]
            } else {
                s.codes[code]
            };
            &&& next.referrer.dom().contains(info.sender)
            &&& next.referrer[info.sender] == referrer
            &&& next.earned(referrer) == s.earned(referrer) + s.config.split.referral_of(
                price_of(s, count),
            )
        }),
{
}

/// A binding that was accepted is the one that the referrer query shows.
pub proof fn law_binding_is_shown(
    s: StateView,
    referee: AddrView,
    referrer: Option<AddrView>,
    code: Option<Seq<char>>,
    normal: Option<Seq<char>>,
)
    requires
        referee.verdict is Ok,
        bind_outcome(s, referee.verdict->Ok_0, referrer, code, normal) is Ok,
    ensures
        ({
            let who = referee.verdict->Ok_0;
            let next = state_after(s, bind_outcome(s, who, referrer, code, normal));
            shown_referrer(next, referee) == Ok::<Option<Seq<char>>, ErrorView>(
                Some(requested_referrer(s, referrer, code, normal)->Ok_0),
            )
        }),
{
}

/// Whoever has earned something, and at least the floor, can claim it; after that
/// nothing is pending, and what was earned over time is what was claimed.
pub proof fn law_earnings_can_be_claimed(s: StateView, who: Seq<char>)
    requires
        sound(s),
        s.earned(who) > 0,
        s.earned(who) >= s.config.min_claim_usaf,
    ensures
        claim_referral_outcome(s, who) matches Ok((next, response)) && response.sent(
            s.config.denom,
        ) == s.earned(who) && next.earned(who) == 0 && next.totals_of(who).lifetime_earned
            == next.totals_of(who).lifetime_claimed,
{
    assert(totals_sound(s, who));
    let (_, response) = claim_referral_outcome(s, who)->Ok_0;
    lemma_sent(who, response.messages[0].amount[0], response.events[0], s.config.denom);
}

/// Nobody but the admin can touch the treasury, and only by a withdrawal, which
/// leaves the pools and what referrers are owed alone.
pub proof fn law_treasury_is_the_admins(s: StateView, env: Env, info: InfoView, msg: ExecuteMsg)
    ensures
        ({
            let next = state_after(s, execute_outcome(s, env, info, msg));
            next.treasury < s.treasury ==> {
                &&& info.sender == s.config.admin
                &&& msg matches ExecuteMsg::WithdrawTreasury { to, amount } && next.treasury
                    == s.treasury - amount
                &&& next.rounds == s.rounds
                &&& next.earnings == s.earnings
            }
        }),
{
}

/// What is reserved to the admin is refused to everyone else.
pub proof fn law_admin_requests_need_the_admin(
    s: StateView,
    env: Env,
    info: InfoView,
    msg: ExecuteMsg,
)
    requires
        info.sender != s.config.admin,
        msg is WithdrawTreasury || msg is SetConfig || msg is Pause || msg is Unpause,
    ensures
        execute_outcome(s, env, info, msg) == Err::<
            (StateView, ResponseView),
            ErrorView,
        >(not_admin()),
{
}

/// While the registration of codes is not open, it is refused to everyone but the
/// admin, and the codes stay as they were.
pub proof fn law_closed_registration_needs_the_admin(
    s: StateView,
    env: Env,
    info: InfoView,
    code: String,
)
    requires
        !s.config.open_code_registration,
        info.sender != s.config.admin,
    ensures
        ({
            let outcome = execute_outcome(s, env, info, ExecuteMsg::RegisterCode { code });
            &&& outcome == Err::<(StateView, ResponseView), ErrorView>(not_admin())
            &&& state_after(s, outcome).codes == s.codes
        }),
{
}

/// While the registration of codes is open, everyone can register a valid code that
/// nobody has; so can the admin at any time.
pub proof fn law_unused_code_can_be_registered(
    s: StateView,
    env: Env,
    info: InfoView,
    code: String,
)
    requires
        s.config.open_code_registration || info.sender == s.config.admin,
        normal_code_refusal(normalized(code@)) is None,
        !s.codes.dom().contains(normalized(code@)),
    ensures
        ({
            let outcome = execute_outcome(s, env, info, ExecuteMsg::RegisterCode { code });
            &&& outcome is Ok
            &&& state_after(s, outcome).codes == s.codes.insert(normalized(code@), info.sender)
        }),
{
}

/// Nobody but the admin changes the configuration.
pub proof fn law_config_is_the_admins(s: StateView, env: Env, info: InfoView, msg: ExecuteMsg)
    ensures
        state_after(s, execute_outcome(s, env, info, msg)).config != s.config ==> info.sender
            == s.config.admin,
{
}

/// The denomination and the number domain stay what they were at the start.
pub proof fn law_denom_and_domain_are_fixed(
    s: StateView,
    env: Env,
    info: InfoView,
    msg: ExecuteMsg,
)
    ensures
        ({
            let next = state_after(s, execute_outcome(s, env, info, msg));
            &&& next.config.denom == s.config.denom
            &&& next.config.numbers_per_ticket == s.config.numbers_per_ticket
            &&& next.config.number_max == s.config.number_max
        }),
{
    match msg {
        ExecuteMsg::SetConfig {
            admin,
            ticket_price,
            draw_interval,
            split,
            rollover_on_no_winner,
            randomness_mode,
            verify_mode,
            drand_pubkey,
            drand_chain_hash,
            drand_genesis_time,
            drand_period,
            min_claim_usaf,
            reveal_timeout,
            open_code_registration,
            max_dry_rounds,
            add_submitters,
            remove_submitters,
        } => {
            lemma_change_keeps(
                s.config,
                SetConfigArgs {
                    admin,
                    ticket_price,
                    draw_interval,
                    split,
                    rollover_on_no_winner,
                    randomness_mode,
                    verify_mode,
                    drand_pubkey,
                    drand_chain_hash,
                    drand_genesis_time,
                    drand_period,
                    min_claim_usaf,
                    reveal_timeout,
                    open_code_registration,
                    max_dry_rounds,
                    add_submitters,
                    remove_submitters,
                },
            );
        },
        _ => {},
    }
}

/// Nobody but the admin and the authorized submitters delivers randomness; closing a
/// round only makes room for it.
pub proof fn law_randomness_needs_a_submitter(
    s: StateView,
    env: Env,
    info: InfoView,
    msg: ExecuteMsg,
    i: int,
)
    requires
        s.wf(),
        0 <= i < s.rounds.len(),
        !s.config.may_submit(info.sender),
    ensures
        ({
            let next = state_after(s, execute_outcome(s, env, info, msg));
            next.rounds[i].randomness == s.rounds[i].randomness || (msg is CloseRound
                && drawable(next.rounds[i]) is None)
        }),
{
    assert(in_place(s.rounds, i));
    assert(in_place(s.rounds, s.rounds.len() - 1));
}

/// While the contract is paused no ticket is sold or granted, but rounds are closed,
/// drawn and given up, and prizes, refunds and earnings are paid, as otherwise.
pub proof fn law_pause_blocks_sales_alone(s: StateView, env: Env, info: InfoView, msg: ExecuteMsg)
    ensures
        ({
            let paused = StateView { config: ConfigView { paused: true, ..s.config }, ..s };
            &&& msg is BuyTickets || msg is GrantBonusTicket ==> execute_outcome(
                paused,
                env,
                info,
                msg,
            ) == Err::<(StateView, ResponseView), ErrorView>(ContractError::Paused)
            &&& msg is CloseRound || msg is Draw || msg is CancelRound || msg is ClaimReward
                || msg is ClaimReferral ==> (execute_outcome(paused, env, info, msg) is Ok
                <==> execute_outcome(s, env, info, msg) is Ok)
        }),
{
}

/// Pausing and resuming brings back the state that was not paused.
pub proof fn law_unpause_undoes_pause(s: StateView)
    requires
        !s.config.paused,
    ensures
        ({
            let admin = s.config.admin;
            state_after(
                state_after(s, pause_outcome(s, admin, true)),
                pause_outcome(state_after(s, pause_outcome(s, admin, true)), admin, false),
            ) == s
        }),
{
}

/// Migrating twice is the same as migrating once.
pub proof fn law_migration_is_idempotent(s: StateView)
    ensures
        ({
            let once = state_after(s, migrate_outcome(s));
            state_after(once, migrate_outcome(once)) == once
        }),
{
}

/// Winning numbers and prizes of a draw depend on the verified randomness and the
/// round alone, not on the block in which it runs.
pub proof fn law_draw_ignores_the_block(s: StateView, a: Env, b: Env, round_id: u64)
    requires
        s.wf(),
        draw_outcome(s, a, round_id) is Ok,
        draw_outcome(s, b, round_id) is Ok,
    ensures
        state_after(s, draw_outcome(s, a, round_id)).ledger(round_id) == state_after(
            s,
            draw_outcome(s, b, round_id),
        ).ledger(round_id),
{
}

/// Randomness that drand mode accepts is the digest of the delivered signature, and
/// with the pairing check the host has confirmed that signature.
pub proof fn law_drand_randomness_is_bound(
    s: StateView,
    info: InfoView,
    env: Env,
    round_id: u64,
    randomness: Vec<u8>,
    signature: Option<Vec<u8>>,
    pairing: PairingAnswer,
)
    requires
        s.config.randomness_mode == RandomnessMode::Drand,
        execute_outcome(
            s,
            env,
            info,
            ExecuteMsg::SubmitRandomness { round_id, randomness, signature, pairing },
        ) is Ok,
    ensures
        signature matches Some(bytes) && randomness@ == sha256_digest(bytes@),
        s.config.verify_mode == VerifyMode::Bls ==> pairing@ == PairingAnswer::<Seq<char>>::Holds,
{
}

/// A reveal that is accepted comes from whoever committed and hashes to the
/// commitment, and the digest is what the round is drawn from.
pub proof fn law_reveal_matches_commitment(
    s: StateView,
    info: InfoView,
    env: Env,
    round_id: u64,
    value: Vec<u8>,
)
    requires
        execute_outcome(s, env, info, ExecuteMsg::RevealRandomness { round_id, value }) is Ok,
    ensures
        ({
            let next = state_after(
                s,
                execute_outcome(s, env, info, ExecuteMsg::RevealRandomness { round_id, value }),
            );
            &&& s.ledger(round_id).randomness matches Some(request) && request.committer == Some(
                info.sender,
            ) && request.commitment == Some(sha256_digest(value@))
            &&& drawable(next.ledger(round_id)) == Some(sha256_digest(value@))
        }),
{
}

/// Whether nothing but payments can happen to a round any more.
pub open spec fn is_finished(status: RoundStatus) -> bool {
    status == RoundStatus::Settled || status == RoundStatus::Cancelled
}

/// Whether a round's ledger is a later stage of another: the round is the same, its
/// status has not gone back, tickets have kept their owners, picks and, once the round
/// is finished, their prizes or refunds, paid tickets stay paid, and fulfilled
/// randomness stays.
pub open spec fn follows(later: LedgerView, earlier: LedgerView) -> bool {
    &&& later.round.id == earlier.round.id
    &&& later.round.opens_at == earlier.round.opens_at
    &&& later.round.closes_at == earlier.round.closes_at
    &&& match earlier.round.status {
        RoundStatus::Open => later.round.status == RoundStatus::Open || later.round.status
            == RoundStatus::Drawing,
        RoundStatus::Drawing => later.round.status == RoundStatus::Drawing || is_finished(
            later.round.status,
        ),
        other => later.round.status == other,
    }
    &&& earlier.tickets.len() <= later.tickets.len()
    &&& earlier.round.status != RoundStatus::Open ==> earlier.tickets.len() == later.tickets.len()
    &&& forall|i: int|
        0 <= i < earlier.tickets.len() ==> ticket_follows(
            #[trigger] later.tickets[i],
            earlier.tickets[i],
            earlier.round.status,
        )
    &&& drawable(earlier) is Some ==> later.randomness == earlier.randomness
    &&& is_finished(earlier.round.status) ==> {
        &&& later.round.winning_numbers == earlier.round.winning_numbers
        &&& later.round.prize_tiers == earlier.round.prize_tiers
        &&& later.round.pool <= earlier.round.pool
        &&& later.round.dry_streak_after == earlier.round.dry_streak_after
    }
}

/// Whether a ticket is a later stage of another, which belongs to a round of the
/// given status.
pub open spec fn ticket_follows(
    later: TicketView,
    earlier: TicketView,
    status: RoundStatus,
) -> bool {
    &&& later.owner == earlier.owner
    &&& later.numbers == earlier.numbers
    &&& later.free == earlier.free
    &&& earlier.claimed ==> later.claimed
    &&& is_finished(status) ==> later.matches == earlier.matches && later.prize
        == earlier.prize
}

proof fn lemma_unchanged_follows(ledger: LedgerView)
    requires
        ledger.round.status == RoundStatus::Open || ledger.round.status == RoundStatus::Drawing
            || is_finished(ledger.round.status),
    ensures
        follows(ledger, ledger),
{
}

proof fn lemma_sale_moves_forward(
    s: StateView,
    owner: Seq<char>,
    fresh: Seq<TicketView>,
    added: nat,
    i: int,
)
    requires
        s.wf(),
        s.rounds.last().round.status == RoundStatus::Open,
        0 <= i < s.rounds.len(),
    ensures
        follows(
            s.rounds.update(s.rounds.len() - 1, sold(s.rounds.last(), owner, fresh, added))[i],
            s.rounds[i],
        ),
{
    assert(in_place(s.rounds, i));
    let earlier = s.rounds[i];
    lemma_unchanged_follows(earlier);
    if i == s.rounds.len() - 1 {
        let later = sold(s.rounds.last(), owner, fresh, added);
        assert forall|j: int| 0 <= j < earlier.tickets.len() implies ticket_follows(
            #[trigger] later.tickets[j],
            earlier.tickets[j],
            earlier.round.status,
        ) by {
            assert(later.tickets[j] == earlier.tickets[j]);
        }
    }
}

proof fn lemma_close_moves_forward(s: StateView, env: Env, i: int)
    requires
        sound(s),
        0 <= i < s.rounds.len(),
    ensures
        ({
            let next = state_after(s, close_outcome(s, env));
            i < next.rounds.len() && follows(next.rounds[i], s.rounds[i])
        }),
{
    assert(in_place(s.rounds, i));
    assert(in_place(s.rounds, s.rounds.len() - 1));
    let earlier = s.rounds[i];
    assert(ledger_sound(earlier, s.config.numbers_per_ticket, s.config.number_max));
    lemma_unchanged_follows(earlier);
}

proof fn lemma_request_moves_forward(s: StateView, round_id: u64, request: RequestView, i: int)
    requires
        sound(s),
        0 <= i < s.rounds.len(),
        pending_refusal(s, round_id) is None,
    ensures
        ({
            let next = with_request(s, round_id, request);
            i < next.rounds.len() && follows(next.rounds[i], s.rounds[i])
        }),
{
    assert(in_place(s.rounds, i));
    lemma_unchanged_follows(s.rounds[i]);
}

proof fn lemma_draw_moves_forward(s: StateView, env: Env, round_id: u64, i: int)
    requires
        sound(s),
        0 <= i < s.rounds.len(),
        draw_refusal(s, env, round_id) is None,
    ensures
        ({
            let next = drawn(s, env, round_id);
            i < next.rounds.len() && follows(next.rounds[i], s.rounds[i])
        }),
{
    assert(in_place(s.rounds, i));
    let earlier = s.rounds[i];
    assert(ledger_sound(earlier, s.config.numbers_per_ticket, s.config.number_max));
    lemma_unchanged_follows(earlier);
    if i == round_id - 1 {
        let later = settled(earlier, draw_of(s, round_id));
        assert forall|j: int| 0 <= j < earlier.tickets.len() implies ticket_follows(
            #[trigger] later.tickets[j],
            earlier.tickets[j],
            earlier.round.status,
        ) by {
            assert(undrawn(earlier.tickets[j]));
        }
    }
}

proof fn lemma_cancel_moves_forward(
    s: StateView,
    env: Env,
    sender: Seq<char>,
    round_id: u64,
    i: int,
)
    requires
        sound(s),
        0 <= i < s.rounds.len(),
        cancel_refusal(s, env, sender, round_id) is None,
    ensures
        ({
            let next = after_cancel(s, env, round_id);
            i < next.rounds.len() && follows(next.rounds[i], s.rounds[i])
        }),
{
    assert(in_place(s.rounds, i));
    let earlier = s.rounds[i];
    assert(ledger_sound(earlier, s.config.numbers_per_ticket, s.config.number_max));
    lemma_unchanged_follows(earlier);
    if i == round_id - 1 {
        let later = cancelled(earlier, s.config.rollover_on_no_winner);
        assert forall|j: int| 0 <= j < earlier.tickets.len() implies ticket_follows(
            #[trigger] later.tickets[j],
            earlier.tickets[j],
            earlier.round.status,
        ) by {
            assert(undrawn(earlier.tickets[j]));
        }
    }
}

proof fn lemma_claim_moves_forward(
    s: StateView,
    sender: Seq<char>,
    round_id: u64,
    id: Seq<char>,
    i: int,
)
    requires
        sound(s),
        0 <= i < s.rounds.len(),
    ensures
        ({
            let next = state_after(s, claim_outcome(s, sender, round_id, id));
            i < next.rounds.len() && follows(next.rounds[i], s.rounds[i])
        }),
{
    assert(in_place(s.rounds, i));
    let earlier = s.rounds[i];
    assert(ledger_sound(earlier, s.config.numbers_per_ticket, s.config.number_max));
    lemma_unchanged_follows(earlier);
    if i == round_id - 1 && claim_refusal(s, sender, round_id, id) is None {
        let k = named_ticket(id, earlier.tickets.len())->0;
        assert(names_ticket(id, earlier.tickets.len(), k));
        assert(is_finished(earlier.round.status)) by {
            if !is_finished(earlier.round.status) {
                assert(undrawn(earlier.tickets[k]));
            }
        }
    }
}

proof fn lemma_sales_move_forward(
    s: StateView,
    env: Env,
    info: InfoView,
    msg: ExecuteMsg,
    i: int,
)
    requires
        sound(s),
        0 <= i < s.rounds.len(),
        msg is BuyTickets || msg is GrantBonusTicket,
        execute_outcome(s, env, info, msg) is Ok,
    ensures
        ({
            let next = state_after(s, execute_outcome(s, env, info, msg));
            i < next.rounds.len() && follows(next.rounds[i], s.rounds[i])
        }),
{
    let next = state_after(s, execute_outcome(s, env, info, msg));
    assert(in_place(s.rounds, s.rounds.len() - 1));
    match msg {
        ExecuteMsg::BuyTickets { count, numbers, referral_code } => {
            let code = normal_form(text_view(referral_code));
            let n = bytes_view(numbers);
            lemma_sale_moves_forward(
                s,
                info.sender,
                bought_tickets(s, env, info.sender, count, n, false),
                pool_share(s, info.sender, code, price_of(s, count)),
                i,
            );
            assert(next == bought(s, env, info.sender, count, n, code));
        },
        ExecuteMsg::GrantBonusTicket { owner, count, numbers } => {
            let who = owner@.verdict->Ok_0;
            lemma_sale_moves_forward(
                s,
                who,
                bought_tickets(s, env, who, count, bytes_view(numbers), true),
                price_of(s, count),
                i,
            );
        },
        _ => {},
    }
}

proof fn lemma_randomness_moves_forward(
    s: StateView,
    env: Env,
    info: InfoView,
    msg: ExecuteMsg,
    i: int,
)
    requires
        sound(s),
        0 <= i < s.rounds.len(),
        msg is SubmitRandomness || msg is CommitRandomness || msg is RevealRandomness,
        execute_outcome(s, env, info, msg) is Ok,
    ensures
        ({
            let next = state_after(s, execute_outcome(s, env, info, msg));
            i < next.rounds.len() && follows(next.rounds[i], s.rounds[i])
        }),
{
    let next = state_after(s, execute_outcome(s, env, info, msg));
    match msg {
        ExecuteMsg::SubmitRandomness { round_id, .. } => {
            lemma_request_moves_forward(s, round_id, next.ledger(round_id).randomness->0, i);
        },
        ExecuteMsg::CommitRandomness { round_id, .. } => {
            lemma_request_moves_forward(s, round_id, next.ledger(round_id).randomness->0, i);
        },
        ExecuteMsg::RevealRandomness { round_id, .. } => {
            lemma_request_moves_forward(s, round_id, next.ledger(round_id).randomness->0, i);
        },
        _ => {},
    }
}

proof fn lemma_round_steps_move_forward(
    s: StateView,
    env: Env,
    info: InfoView,
    msg: ExecuteMsg,
    i: int,
)
    requires
        sound(s),
        0 <= i < s.rounds.len(),
        msg is CloseRound || msg is Draw || msg is CancelRound || msg is ClaimReward,
        execute_outcome(s, env, info, msg) is Ok,
    ensures
        ({
            let next = state_after(s, execute_outcome(s, env, info, msg));
            i < next.rounds.len() && follows(next.rounds[i], s.rounds[i])
        }),
{
    match msg {
        ExecuteMsg::CloseRound {  } => {
            lemma_close_moves_forward(s, env, i);
        },
        ExecuteMsg::Draw { round_id } => {
            lemma_draw_moves_forward(s, env, round_id, i);
        },
        ExecuteMsg::CancelRound { round_id } => {
            lemma_cancel_moves_forward(s, env, info.sender, round_id, i);
        },
        ExecuteMsg::ClaimReward { round_id, ticket_id } => {
            lemma_claim_moves_forward(s, info.sender, round_id, ticket_id@, i);
        },
        _ => {},
    }
}

/// Every request carries every round forward and never back: sales only add
/// tickets, fulfilled randomness, settled results and refunds are final, and a paid
/// ticket stays paid.
pub proof fn law_rounds_only_move_forward(
    s: StateView,
    env: Env,
    info: InfoView,
    msg: ExecuteMsg,
    i: int,
)
    requires
        sound(s),
        0 <= i < s.rounds.len(),
    ensures
        ({
            let next = state_after(s, execute_outcome(s, env, info, msg));
            i < next.rounds.len() && follows(next.rounds[i], s.rounds[i])
        }),
{
    assert(in_place(s.rounds, i));
    lemma_unchanged_follows(s.rounds[i]);
    if execute_outcome(s, env, info, msg) is Ok {
        if msg is BuyTickets || msg is GrantBonusTicket {
            lemma_sales_move_forward(s, env, info, msg, i);
        } else if msg is SubmitRandomness || msg is CommitRandomness || msg is RevealRandomness {
            lemma_randomness_moves_forward(s, env, info, msg, i);
        } else if msg is CloseRound || msg is Draw || msg is CancelRound || msg is ClaimReward {
            lemma_round_steps_move_forward(s, env, info, msg, i);
        }
    }
}

/// A sound contract covers every prize and every refund: whoever owns an unpaid ticket
/// that has one can claim it.
pub proof fn law_unpaid_prizes_can_be_claimed(s: StateView, round_id: u64, i: int)
    requires
        sound(s),
        s.has_round(round_id),
        0 <= i < s.ledger(round_id).tickets.len(),
        s.ledger(round_id).tickets[i].prize > 0,
        !s.ledger(round_id).tickets[i].claimed,
    ensures
        claim_outcome(
            s,
            s.ledger(round_id).tickets[i].owner,
            round_id,
            ticket_name(i as nat),
        ) is Ok,
{
    let ledger = s.ledger(round_id);
    let id = ticket_name(i as nat);
    assert(names_ticket(id, ledger.tickets.len(), i));
    lemma_named_ticket(id, ledger.tickets.len(), i);
    assert(ledger_sound(ledger, s.config.numbers_per_ticket, s.config.number_max));
    assert(is_finished(ledger.round.status)) by {
        if !is_finished(ledger.round.status) {
            assert(undrawn(ledger.tickets[i]));
        }
    }
    lemma_unclaimed_covers(ledger.tickets, i);
}

proof fn lemma_unclaimed_covers(tickets: Seq<TicketView>, i: int)
    requires
        0 <= i < tickets.len(),
        !tickets[i].claimed,
    ensures
        tickets[i].prize <= unclaimed(tickets),
    decreases tickets.len(),
{
    if i < tickets.len() - 1 {
        lemma_unclaimed_covers(tickets.drop_last(), i);
    }
}

/// A prize is paid once, to the owner of the ticket and in full; after that the
/// ticket pays nothing more.
pub proof fn law_prize_is_paid_once(s: StateView, sender: Seq<char>, round_id: u64, id: Seq<char>)
    requires
        sound(s),
        claim_outcome(s, sender, round_id, id) is Ok,
    ensures
        ({
            let (next, response) = claim_outcome(s, sender, round_id, id)->Ok_0;
            let i = named_ticket(id, s.ledger(round_id).tickets.len())->0;
            let ticket = s.ledger(round_id).tickets[i];
            &&& sender == ticket.owner
            &&& response.messages.len() == 1
            &&& response.messages[0].to_address == ticket.owner
            &&& response.messages[0].amount.len() == 1
            &&& response.messages[0].amount[0].denom == s.config.denom
            &&& response.messages[0].amount[0].amount == ticket.prize
            &&& claim_outcome(next, sender, round_id, id) == Err::<
                (StateView, ResponseView),
                ErrorView,
            >(ContractError::AlreadyClaimed { round_id, ticket_id: id })
        }),
{
    let ledger = s.ledger(round_id);
    assert(ledger_sound(ledger, s.config.numbers_per_ticket, s.config.number_max));
    let i = named_ticket(id, ledger.tickets.len())->0;
    assert(names_ticket(id, ledger.tickets.len(), i));
}

/// A claim moves its prize from what the owner can claim to what has been paid, as
/// the prize query shows them.
pub proof fn law_claim_moves_prize(s: StateView, sender: Seq<char>, round_id: u64, id: Seq<char>)
    requires
        claim_outcome(s, sender, round_id, id) is Ok,
    ensures
        ({
            let (next, _) = claim_outcome(s, sender, round_id, id)->Ok_0;
            let before = s.ledger(round_id).tickets;
            let after = next.ledger(round_id).tickets;
            let n = before.len();
            let prize = before[named_ticket(id, n)->0].prize;
            &&& won(after, n, sender, false) + prize == won(before, n, sender, false)
            &&& won(after, n, sender, true) == won(before, n, sender, true) + prize
        }),
{
    let before = s.ledger(round_id).tickets;
    let i = named_ticket(id, before.len())->0;
    assert(names_ticket(id, before.len(), i));
    lemma_won_after_claim(before, before.len(), i, sender);
}

proof fn lemma_won_after_claim(tickets: Seq<TicketView>, n: nat, i: int, who: Seq<char>)
    requires
        0 <= i < tickets.len(),
        n <= tickets.len(),
        is_won_by(tickets[i], who),
        !tickets[i].claimed,
    ensures
        ({
            let after = tickets.update(i, TicketView { claimed: true, ..tickets[i] });
            let moved = if i < n {
                tickets[i].prize
            } else {
                0
            };
            &&& won(after, n, who, false) + moved == won(tickets, n, who, false)
            &&& won(after, n, who, true) == won(tickets, n, who, true) + moved
        }),
    decreases n,
{
    if n > 0 {
        lemma_won_after_claim(tickets, (n - 1) as nat, i, who);
    }
}

/// Going on after the last ticket of a page lists exactly the tickets that remain,
/// as long as ids sort in the order of purchase.
pub proof fn law_pages_continue(
    tickets: Seq<TicketView>,
    n: nat,
    owner: Option<Seq<char>>,
    k: int,
)
    requires
        n <= tickets.len(),
        n <= tens(TICKET_ID_WIDTH as nat),
        0 <= k < listing(tickets, n, owner, None).len(),
    ensures
        listing(tickets, n, owner, Some(listing(tickets, n, owner, None)[k].ticket_id)) == listing(
            tickets,
            n,
            owner,
            None,
        ).skip(k + 1),
{
    let j = lemma_listed_at(tickets, n, owner, k);
    lemma_listing_after(tickets, n, owner, j);
    assert(listing(tickets, n, owner, None).skip(
        listing(tickets, (j + 1) as nat, owner, None).len() as int,
    ) == listing(tickets, n, owner, None).skip(k + 1));
}

/// Finds the ticket that stands at place `k` of a listing.
proof fn lemma_listed_at(
    tickets: Seq<TicketView>,
    n: nat,
    owner: Option<Seq<char>>,
    k: int,
) -> (j: nat)
    requires
        n <= tickets.len(),
        0 <= k < listing(tickets, n, owner, None).len(),
    ensures
        j < n,
        listing(tickets, n, owner, None)[k].ticket_id == ticket_name(j),
        listing(tickets, j + 1, owner, None).len() == k + 1,
    decreases n,
{
    let before = listing(tickets, (n - 1) as nat, owner, None);
    if k < before.len() {
        lemma_listed_at(tickets, (n - 1) as nat, owner, k)
    } else {
        (n - 1) as nat
    }
}

proof fn lemma_listing_after(tickets: Seq<TicketView>, n: nat, owner: Option<Seq<char>>, j: nat)
    requires
        n <= tickets.len(),
        n <= tens(TICKET_ID_WIDTH as nat),
        j < tens(TICKET_ID_WIDTH as nat),
    ensures
        n <= j + 1 ==> listing(tickets, n, owner, Some(ticket_name(j))).len() == 0,
        n >= j + 1 ==> listing(tickets, n, owner, None).len() >= listing(
            tickets,
            j + 1,
            owner,
            None,
        ).len() && listing(tickets, n, owner, Some(ticket_name(j))) == listing(
            tickets,
            n,
            owner,
            None,
        ).skip(listing(tickets, j + 1, owner, None).len() as int),
    decreases n,
{
    let start = Some(ticket_name(j));
    let whole = listing(tickets, n, owner, None);
    let cut = listing(tickets, j + 1, owner, None).len() as int;
    if n > 0 {
        let m = (n - 1) as nat;
        lemma_listing_after(tickets, m, owner, j);
        if m <= j {
            if m < j {
                law_ticket_ids_sort_in_purchase_order(m, j);
                lemma_lex_irreflexive(encode_utf8(ticket_name(m)));
                if lex_lt(encode_utf8(ticket_name(j)), encode_utf8(ticket_name(m))) {
                    lemma_lex_transitive(
                        encode_utf8(ticket_name(m)),
                        encode_utf8(ticket_name(j)),
                        encode_utf8(ticket_name(m)),
                    );
                }
            } else {
                lemma_lex_irreflexive(encode_utf8(ticket_name(j)));
            }
            assert(!is_listed(tickets[m as int], ticket_name(m), owner, start));
            if n == j + 1 {
                assert(whole.skip(cut) =~= Seq::<TicketInfoView>::empty());
                assert(listing(tickets, n, owner, start) =~= Seq::<TicketInfoView>::empty());
            }
        } else {
            law_ticket_ids_sort_in_purchase_order(j, m);
            let before = listing(tickets, m, owner, None);
            assert(listing(tickets, n, owner, start) =~= whole.skip(cut));
        }
    }
}

/// A listing shows exactly the tickets that were asked for, each under its id.
pub proof fn law_listing_is_exact(
    tickets: Seq<TicketView>,
    n: nat,
    owner: Option<Seq<char>>,
    start_after: Option<Seq<char>>,
    info: TicketInfoView,
)
    requires
        n <= tickets.len(),
    ensures
        listing(tickets, n, owner, start_after).contains(info) <==> exists|j: int|
            #![trigger tickets[j]]
            0 <= j < n && info == (TicketInfoView {
                ticket_id: ticket_name(j as nat),
                ticket: tickets[j],
            }) && is_listed(tickets[j], ticket_name(j as nat), owner, start_after),
    decreases n,
{
    if n > 0 {
        let m = (n - 1) as nat;
        law_listing_is_exact(tickets, m, owner, start_after, info);
        let before = listing(tickets, m, owner, start_after);
        let last = TicketInfoView { ticket_id: ticket_name(m), ticket: tickets[m as int] };
        let whole = listing(tickets, n, owner, start_after);
        if before.contains(info) {
            let k = choose|k: int| 0 <= k < before.len() && before[k] == info;
            assert(whole[k] == info);
        }
        if whole.contains(info) && !before.contains(info) {
            let k = choose|k: int| 0 <= k < whole.len() && whole[k] == info;
            assert(k == before.len());
        }
        if is_listed(tickets[m as int], ticket_name(m), owner, start_after) && info == last {
            assert(whole[before.len() as int] == info);
        }
    }
}

/// After a purchase the ticket listing of the buyer shows every ticket of it, with
/// the picks that the purchase asked for.
pub proof fn law_bought_tickets_are_listed(
    s: StateView,
    env: Env,
    info: InfoView,
    count: u32,
    numbers: Option<Seq<u8>>,
    code: Option<Seq<char>>,
    j: int,
)
    requires
        s.wf(),
        buy_outcome(s, env, info, count, numbers, code) is Ok,
        0 <= j < count,
    ensures
        ({
            let next = state_after(s, buy_outcome(s, env, info, count, numbers, code));
            let first = s.rounds.last().tickets.len();
            let tickets = tickets_of(next, s.current());
            listing(tickets, tickets.len(), Some(info.sender), None).contains(
                TicketInfoView {
                    ticket_id: ticket_name((first + j) as nat),
                    ticket: TicketView::bought(
                        info.sender,
                        bought_picks(s, env, info.sender, numbers, j),
                        false,
                    ),
                },
            )
        }),
{
    let next = bought(s, env, info.sender, count, numbers, code);
    let before = s.rounds.last().tickets;
    let fresh = bought_tickets(s, env, info.sender, count, numbers, false);
    assert(in_place(s.rounds, s.rounds.len() - 1));
    let tickets = tickets_of(next, s.current());
    assert(tickets == before + fresh);
    let i = before.len() + j;
    assert(tickets[i] == fresh[j]);
    law_listing_is_exact(
        tickets,
        tickets.len(),
        Some(info.sender),
        None,
        TicketInfoView { ticket_id: ticket_name(i as nat), ticket: fresh[j] },
    );
}

} // verus!
