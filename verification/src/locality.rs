//! Which tickets a request or a query looks at: those of the current round and of the
//! round that it names. The tickets of all other rounds can stay where they are.

use crate::admin::with_beacon_clock;
use crate::beacon::bytes_view;
use crate::contract::{execute_outcome, migrate_outcome, query_outcome};
use crate::host::{Env, InfoView};
use crate::msg::{ExecuteMsg, QueryMsg};
use crate::outcome::{state_after, Outcome};
use crate::sales::bought_tickets;
use crate::settings::{changed, set_config_outcome, SetConfigArgs};
use crate::state::{in_place, LedgerView, StateView};
use vstd::prelude::*;

verus! {

/// The round that a request names.
pub open spec fn round_of(msg: ExecuteMsg) -> Option<u64> {
    match msg {
        ExecuteMsg::SubmitRandomness { round_id, .. } => Some(round_id),
        ExecuteMsg::CommitRandomness { round_id, .. } => Some(round_id),
        ExecuteMsg::RevealRandomness { round_id, .. } => Some(round_id),
        ExecuteMsg::Draw { round_id } => Some(round_id),
        ExecuteMsg::CancelRound { round_id } => Some(round_id),
        ExecuteMsg::ClaimReward { round_id, .. } => Some(round_id),
        _ => None,
    }
}

/// The round whose tickets a query names.
pub open spec fn round_asked(msg: QueryMsg) -> Option<u64> {
    match msg {
        QueryMsg::Tickets { round_id, .. } => Some(round_id),
        QueryMsg::Prize { round_id, .. } => Some(round_id),
        _ => None,
    }
}

/// Whether the tickets of a round count: the round is the one named, or it is the
/// current one or came after it.
pub open spec fn is_looked_at(round_id: int, current: u64, named: Option<u64>) -> bool {
    round_id >= current || (named matches Some(n) && round_id == n)
}

/// Whether two ledgers are the same but for their tickets.
pub open spec fn same_but_tickets(a: LedgerView, b: LedgerView) -> bool {
    a.round == b.round && a.randomness == b.randomness
}

/// Whether two ledgers of a round are the same, or the same but for their tickets if
/// those do not count.
pub open spec fn agree(
    a: LedgerView,
    b: LedgerView,
    round_id: int,
    current: u64,
    named: Option<u64>,
) -> bool {
    if is_looked_at(round_id, current, named) {
        a == b
    } else {
        same_but_tickets(a, b)
    }
}

/// Whether two states are the same but for the tickets of rounds that are neither
/// current nor named.
pub open spec fn same_view(a: StateView, b: StateView, current: u64, named: Option<u64>) -> bool {
    &&& a == (StateView { rounds: a.rounds, ..b })
    &&& a.rounds.len() == b.rounds.len()
    &&& forall|i: int|
        0 <= i < a.rounds.len() ==> agree(
            #[trigger] a.rounds[i],
            b.rounds[i],
            i + 1,
            current,
            named,
        )
}

/// Whether two outcomes are the same refusal, or the same reply with next states that
/// are the same but for the tickets of rounds that are neither current nor named.
pub open spec fn same_outcome(a: Outcome, b: Outcome, current: u64, named: Option<u64>) -> bool {
    match (a, b) {
        (Ok((s, x)), Ok((t, y))) => x == y && same_view(s, t, current, named),
        (Err(x), Err(y)) => x == y,
        _ => false,
    }
}

proof fn lemma_current_agrees(a: StateView, b: StateView, named: Option<u64>)
    requires
        a.wf(),
        same_view(a, b, a.current(), named),
    ensures
        a.current() == b.current(),
        a.current() == a.rounds.len(),
        a.rounds.last() == b.rounds.last(),
        named matches Some(n) ==> a.has_round(n) == b.has_round(n),
        named matches Some(n) ==> a.has_round(n) ==> a.ledger(n) == b.ledger(n),
{
    let last = a.rounds.len() - 1;
    assert(in_place(a.rounds, last));
    assert(agree(a.rounds[last], b.rounds[last], last + 1, a.current(), named));
    if let Some(n) = named {
        if a.has_round(n) {
            assert(agree(a.rounds[n - 1], b.rounds[n - 1], n as int, a.current(), named));
        }
    }
}

proof fn lemma_same_update(
    a: StateView,
    b: StateView,
    current: u64,
    named: Option<u64>,
    round_id: u64,
    ledger: LedgerView,
)
    requires
        same_view(a, b, current, named),
        a.has_round(round_id),
    ensures
        same_view(
            a.with_ledger(round_id, ledger),
            b.with_ledger(round_id, ledger),
            current,
            named,
        ),
{
}

proof fn lemma_same_finish(
    a: StateView,
    b: StateView,
    c: StateView,
    d: StateView,
    named: Option<u64>,
    round_id: u64,
    after: LedgerView,
    next: LedgerView,
)
    requires
        a.wf(),
        same_view(a, b, a.current(), named),
        a.has_round(round_id),
        c.rounds == a.rounds.update(round_id - 1, after).push(next),
        d.rounds == b.rounds.update(round_id - 1, after).push(next),
        c == (StateView { rounds: c.rounds, ..d }),
    ensures
        same_view(c, d, a.current(), named),
{
    let current = a.current();
    assert forall|i: int| 0 <= i < c.rounds.len() implies agree(
        #[trigger] c.rounds[i],
        d.rounds[i],
        i + 1,
        current,
        named,
    ) by {
        if i < a.rounds.len() {
            assert(agree(a.rounds[i], b.rounds[i], i + 1, current, named));
        }
    }
}

proof fn lemma_same_sale(
    a: StateView,
    b: StateView,
    env: Env,
    owner: Seq<char>,
    count: u32,
    numbers: Option<Seq<u8>>,
    free: bool,
)
    requires
        a.config == b.config,
        a.current() == b.current(),
        a.rounds.last() == b.rounds.last(),
    ensures
        bought_tickets(a, env, owner, count, numbers, free) == bought_tickets(
            b,
            env,
            owner,
            count,
            numbers,
            free,
        ),
{
    assert(bought_tickets(a, env, owner, count, numbers, free) =~= bought_tickets(
        b,
        env,
        owner,
        count,
        numbers,
        free,
    ));
}

proof fn lemma_sale_is_local(
    a: StateView,
    b: StateView,
    env: Env,
    info: InfoView,
    msg: ExecuteMsg,
)
    requires
        a.wf(),
        same_view(a, b, a.current(), round_of(msg)),
        msg is BuyTickets || msg is GrantBonusTicket || msg is CloseRound,
    ensures
        same_outcome(
            execute_outcome(a, env, info, msg),
            execute_outcome(b, env, info, msg),
            a.current(),
            round_of(msg),
        ),
{
    let named = round_of(msg);
    let current = a.current();
    lemma_current_agrees(a, b, named);
    let next = state_after(a, execute_outcome(a, env, info, msg));
    lemma_same_update(a, b, current, named, current, next.rounds.last());
    match msg {
        ExecuteMsg::BuyTickets { count, numbers, .. } => {
            lemma_same_sale(a, b, env, info.sender, count, bytes_view(numbers), false);
        },
        ExecuteMsg::GrantBonusTicket { owner, count, numbers } => {
            lemma_same_sale(a, b, env, owner@.verdict->Ok_0, count, bytes_view(numbers), true);
        },
        _ => {},
    }
}

proof fn lemma_named_step_is_local(
    a: StateView,
    b: StateView,
    env: Env,
    info: InfoView,
    msg: ExecuteMsg,
)
    requires
        a.wf(),
        same_view(a, b, a.current(), round_of(msg)),
        msg is SubmitRandomness || msg is CommitRandomness || msg is RevealRandomness
            || msg is ClaimReward,
    ensures
        same_outcome(
            execute_outcome(a, env, info, msg),
            execute_outcome(b, env, info, msg),
            a.current(),
            round_of(msg),
        ),
{
    let named = round_of(msg);
    let current = a.current();
    lemma_current_agrees(a, b, named);
    let next = state_after(a, execute_outcome(a, env, info, msg));
    let round_id = named->0;
    if a.has_round(round_id) {
        lemma_same_update(a, b, current, named, round_id, next.ledger(round_id));
    }
}

proof fn lemma_finish_is_local(
    a: StateView,
    b: StateView,
    env: Env,
    info: InfoView,
    msg: ExecuteMsg,
)
    requires
        a.wf(),
        same_view(a, b, a.current(), round_of(msg)),
        msg is Draw || msg is CancelRound,
    ensures
        same_outcome(
            execute_outcome(a, env, info, msg),
            execute_outcome(b, env, info, msg),
            a.current(),
            round_of(msg),
        ),
{
    let named = round_of(msg);
    let current = a.current();
    lemma_current_agrees(a, b, named);
    let x = execute_outcome(a, env, info, msg);
    let y = execute_outcome(b, env, info, msg);
    let next = state_after(a, x);
    let round_id = named->0;
    if x is Ok {
        let after = next.ledger(round_id);
        let fresh = next.rounds.last();
        lemma_same_finish(a, b, next, state_after(b, y), named, round_id, after, fresh);
    }
}

/// A step that looks at no round leads to states that differ as much as before.
proof fn lemma_same_rest(a: StateView, b: StateView, c: StateView, d: StateView, current: u64)
    requires
        same_view(a, b, current, None),
        c.rounds == a.rounds,
        d.rounds == b.rounds,
        c == (StateView { rounds: c.rounds, ..d }),
    ensures
        same_view(c, d, current, None),
{
}

proof fn lemma_set_config_is_local(
    a: StateView,
    b: StateView,
    sender: Seq<char>,
    args: SetConfigArgs,
    current: u64,
)
    requires
        same_view(a, b, current, None),
    ensures
        same_outcome(
            set_config_outcome(a, sender, args),
            set_config_outcome(b, sender, args),
            current,
            None,
        ),
{
    let change = changed(a.config, args);
    assert(change == changed(b.config, args));
    if set_config_outcome(a, sender, args) is Ok {
        let config = with_beacon_clock(change->Ok_0.config);
        let c = StateView { config, ..a };
        let d = StateView { config, ..b };
        lemma_same_rest(a, b, c, d, current);
    }
}

proof fn lemma_referral_step_is_local(
    a: StateView,
    b: StateView,
    env: Env,
    info: InfoView,
    msg: ExecuteMsg,
)
    requires
        same_view(a, b, a.current(), round_of(msg)),
        msg is BindReferrer || msg is RegisterCode || msg is ClaimReferral,
    ensures
        same_outcome(
            execute_outcome(a, env, info, msg),
            execute_outcome(b, env, info, msg),
            a.current(),
            round_of(msg),
        ),
{
    let x = execute_outcome(a, env, info, msg);
    let y = execute_outcome(b, env, info, msg);
    if x is Ok {
        lemma_same_rest(a, b, state_after(a, x), state_after(b, y), a.current());
    }
}

proof fn lemma_admin_step_is_local(
    a: StateView,
    b: StateView,
    env: Env,
    info: InfoView,
    msg: ExecuteMsg,
)
    requires
        same_view(a, b, a.current(), round_of(msg)),
        msg is WithdrawTreasury || msg is Pause || msg is Unpause,
    ensures
        same_outcome(
            execute_outcome(a, env, info, msg),
            execute_outcome(b, env, info, msg),
            a.current(),
            round_of(msg),
        ),
{
    let x = execute_outcome(a, env, info, msg);
    let y = execute_outcome(b, env, info, msg);
    if x is Ok {
        lemma_same_rest(a, b, state_after(a, x), state_after(b, y), a.current());
    }
}

proof fn lemma_settings_step_is_local(
    a: StateView,
    b: StateView,
    env: Env,
    info: InfoView,
    msg: ExecuteMsg,
)
    requires
        same_view(a, b, a.current(), round_of(msg)),
        msg is SetConfig,
    ensures
        same_outcome(
            execute_outcome(a, env, info, msg),
            execute_outcome(b, env, info, msg),
            a.current(),
            round_of(msg),
        ),
{
    match msg {
        ExecuteMsg::SetConfig {
            admin,
            ticket_price,
            draw_interval,
            split,
            rollover_on_no_winner,
            randomness_mode,
            verify_mode,
            drand_pubkey,
            drand_chain_hash,
            drand_genesis_time,
            drand_period,
            min_claim_usaf,
            reveal_timeout,
            open_code_registration,
            max_dry_rounds,
            add_submitters,
            remove_submitters,
        } => {
            let args = SetConfigArgs {
                admin,
                ticket_price,
                draw_interval,
                split,
                rollover_on_no_winner,
                randomness_mode,
                verify_mode,
                drand_pubkey,
                drand_chain_hash,
                drand_genesis_time,
                drand_period,
                min_claim_usaf,
                reveal_timeout,
                open_code_registration,
                max_dry_rounds,
                add_submitters,
                remove_submitters,
            };
            lemma_set_config_is_local(a, b, info.sender, args, a.current());
        },
        _ => {},
    }
}

/// A request looks at no other tickets than those of the current round and of the
/// round that it names: in two states that differ in other tickets alone it has the
/// same reply or refusal, and the next states again differ in other tickets alone.
pub proof fn law_request_looks_at_its_rounds_alone(
    a: StateView,
    b: StateView,
    env: Env,
    info: InfoView,
    msg: ExecuteMsg,
)
    requires
        a.wf(),
        same_view(a, b, a.current(), round_of(msg)),
    ensures
        same_outcome(
            execute_outcome(a, env, info, msg),
            execute_outcome(b, env, info, msg),
            a.current(),
            round_of(msg),
        ),
{
    if msg is BuyTickets || msg is GrantBonusTicket || msg is CloseRound {
        lemma_sale_is_local(a, b, env, info, msg);
    } else if msg is SubmitRandomness || msg is CommitRandomness || msg is RevealRandomness
        || msg is ClaimReward {
        lemma_named_step_is_local(a, b, env, info, msg);
    } else if msg is Draw || msg is CancelRound {
        lemma_finish_is_local(a, b, env, info, msg);
    } else if msg is SetConfig {
        lemma_settings_step_is_local(a, b, env, info, msg);
    } else if msg is BindReferrer || msg is RegisterCode || msg is ClaimReferral {
        lemma_referral_step_is_local(a, b, env, info, msg);
    } else {
        lemma_admin_step_is_local(a, b, env, info, msg);
    }
}

/// A request changes no other rounds than the current one and the one that it names.
pub proof fn law_request_changes_its_rounds_alone(
    s: StateView,
    env: Env,
    info: InfoView,
    msg: ExecuteMsg,
    i: int,
)
    requires
        s.wf(),
        0 <= i < s.rounds.len(),
        !is_looked_at(i + 1, s.current(), round_of(msg)),
    ensures
        ({
            let next = state_after(s, execute_outcome(s, env, info, msg));
            i < next.rounds.len() && next.rounds[i] == s.rounds[i]
        }),
{
    assert(in_place(s.rounds, s.rounds.len() - 1));
}

/// A query looks at no other tickets than those of the round that it names.
pub proof fn law_query_looks_at_its_round_alone(a: StateView, b: StateView, msg: QueryMsg)
    requires
        a.wf(),
        same_view(a, b, a.current(), round_asked(msg)),
    ensures
        query_outcome(a, msg) == query_outcome(b, msg),
{
    lemma_current_agrees(a, b, round_asked(msg));
    match msg {
        QueryMsg::Round { round_id } => {
            if a.has_round(round_id) {
                assert(agree(
                    a.rounds[round_id - 1],
                    b.rounds[round_id - 1],
                    round_id as int,
                    a.current(),
                    None,
                ));
            }
        },
        _ => {},
    }
}

/// A migration looks at no tickets at all.
pub proof fn law_migration_looks_at_no_tickets(a: StateView, b: StateView)
    requires
        same_view(a, b, a.current(), None),
    ensures
        same_outcome(migrate_outcome(a), migrate_outcome(b), a.current(), None),
{
}

} // verus!
