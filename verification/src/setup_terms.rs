//! What a new contract starts with.

use crate::admin::{
    addresses, instantiate_outcome, lemma_addresses_failure, randomness_config_refusal,
    requested_config, rules_refusal,
};
use crate::admin_terms::{
    clock_value, drand_objection, first_objection, lemma_first_invalid, or_else, split_objection,
};
use crate::beacon::bytes_view;
use crate::error::{ContractError, ErrorView};
use crate::host::{addrs_view, text_view, AddrText, AddrView, Env, InfoView};
use crate::money::Coin;
use crate::msg::InstantiateMsg;
use crate::response::ResponseView;
use crate::round_terms::{is_fresh, seconds_of};
use crate::settings::coin_option_view;
use crate::split::FundSplitBps;
use crate::state::{ConfigView, ContractVersion, RandomnessMode, StateView, VerifyMode};
use vstd::prelude::*;

verus! {

/// The configuration that a new contract asks for, with the defaults, but for the
/// submitters: five coins a ticket, a draw every day, six of forty-five numbers, 75, 10
/// and 15 percent for the pool, referrers and the treasury, leftovers roll over, mock
/// randomness, an hour for a reveal, closed registration of codes, and at most five
/// dry rounds.
pub open spec fn starting_config(info: InfoView, msg: InstantiateMsg) -> ConfigView {
    let denom = or_else(text_view(msg.denom), "usaf"@);
    let mode = or_else(msg.randomness_mode, RandomnessMode::Mock);
    ConfigView {
        admin: match msg.admin {
            Some(name) => name@.verdict->Ok_0,
            None => info.sender,
        },
        denom,
        ticket_price: or_else(
            coin_option_view(msg.ticket_price),
            Coin { denom, amount: 5_000_000 },
        ),
        draw_interval: or_else(msg.draw_interval, 86_400),
        numbers_per_ticket: or_else(msg.numbers_per_ticket, 6),
        number_max: or_else(msg.number_max, 45),
        split: or_else(
            msg.split,
            FundSplitBps { prize_bps: 7500, referral_bps: 1000, treasury_bps: 1500 },
        ),
        rollover_on_no_winner: or_else(msg.rollover_on_no_winner, true),
        paused: false,
        randomness_mode: mode,
        verify_mode: or_else(msg.verify_mode, VerifyMode::Dev),
        drand_pubkey: or_else(bytes_view(msg.drand_pubkey), Seq::empty()),
        drand_chain_hash: or_else(text_view(msg.drand_chain_hash), Seq::empty()),
        drand_genesis_time: clock_value(mode, or_else(msg.drand_genesis_time, 0), 1_692_803_367),
        drand_period: clock_value(mode, or_else(msg.drand_period, 0), 3),
        authorized_submitters: Seq::empty(),
        min_claim_usaf: or_else(msg.min_claim_usaf, 0),
        reveal_timeout: or_else(msg.reveal_timeout, 3600),
        open_code_registration: or_else(msg.open_code_registration, false),
        max_dry_rounds: or_else(msg.max_dry_rounds, 5),
    }
}

/// Why the rules of a new contract are refused: the first objection that there is.
pub open spec fn rules_objection(config: ConfigView) -> Option<ErrorView> {
    let refused = |reason: Seq<char>| Some(ContractError::InvalidConfig { reason });
    if config.denom.len() == 0 {
        refused("denom must not be empty"@)
    } else if config.ticket_price.denom != config.denom {
        refused("ticket_price denom must be '"@ + config.denom + "'"@)
    } else if config.ticket_price.amount == 0 {
        refused("ticket_price must be non-zero"@)
    } else if config.draw_interval == 0 {
        refused("draw_interval must be non-zero"@)
    } else if config.numbers_per_ticket == 0 {
        refused("numbers_per_ticket must be > 0"@)
    } else if config.number_max < config.numbers_per_ticket {
        refused("number_max must be >= numbers_per_ticket"@)
    } else {
        split_objection(config.split)
    }
}

proof fn lemma_addresses(names: Seq<AddrView>)
    ensures
        addresses(names) is Ok <==> forall|i: int|
            0 <= i < names.len() ==> (#[trigger] names[i]).verdict is Ok,
        addresses(names) matches Err(e) ==> e is Std,
        addresses(names) matches Ok(list) ==> list.no_duplicates() && forall|who: Seq<char>|
            #![trigger list.contains(who)]
            list.contains(who) <==> exists|i: int|
                0 <= i < names.len() && (#[trigger] names[i]).verdict == Ok::<
                    Seq<char>,
                    Seq<char>,
                >(who),
    decreases names.len(),
{
    if names.len() > 0 {
        let rest = names.drop_last();
        let last = names[names.len() - 1];
        lemma_addresses(rest);
        assert(forall|i: int| 0 <= i < rest.len() ==> rest[i] == names[i]);
        if addresses(rest) is Err {
            let i = choose|i: int| 0 <= i < rest.len() && !((#[trigger] rest[i]).verdict is Ok);
            assert(!(names[i].verdict is Ok));
        } else if addresses(names) is Ok {
            let q = addresses(rest)->Ok_0;
            let r = addresses(names)->Ok_0;
            let address = last.verdict->Ok_0;
            assert forall|who: Seq<char>|
                #![trigger r.contains(who)]
                r.contains(who) <==> exists|i: int|
                    0 <= i < names.len() && (#[trigger] names[i]).verdict == Ok::<
                        Seq<char>,
                        Seq<char>,
                    >(who) by {
                assert(names[names.len() - 1].verdict == Ok::<Seq<char>, Seq<char>>(address));
                if !q.contains(address) {
                    assert(r == q.push(address));
                    assert(r[q.len() as int] == address);
                    if q.contains(who) {
                        let i = choose|i: int| 0 <= i < q.len() && q[i] == who;
                        assert(r[i] == who);
                    }
                    if r.contains(who) && who != address {
                        let i = choose|i: int| 0 <= i < r.len() && r[i] == who;
                        assert(q[i] == who);
                    }
                }
                if q.contains(who) {
                    let i = choose|i: int|
                        0 <= i < rest.len() && (#[trigger] rest[i]).verdict == Ok::<
                            Seq<char>,
                            Seq<char>,
                        >(who);
                    assert(names[i].verdict == Ok::<Seq<char>, Seq<char>>(who));
                }
                if exists|i: int|
                    0 <= i < names.len() && (#[trigger] names[i]).verdict == Ok::<
                        Seq<char>,
                        Seq<char>,
                    >(who) {
                    let i = choose|i: int|
                        0 <= i < names.len() && (#[trigger] names[i]).verdict == Ok::<
                            Seq<char>,
                            Seq<char>,
                        >(who);
                    if i < rest.len() {
                        assert(rest[i].verdict == Ok::<Seq<char>, Seq<char>>(who));
                        assert(q.contains(who));
                    } else {
                        assert(who == address);
                    }
                }
            }
        }
    }
}

/// Whether the host accepts all of the names.
pub open spec fn names_valid(names: Seq<AddrText>) -> bool {
    forall|i: int| 0 <= i < names.len() ==> (#[trigger] names[i]).verdict is Ok
}

/// Whether an address is behind one of the names.
pub open spec fn names_hold(names: Seq<AddrText>, who: Seq<char>) -> bool {
    exists|i: int|
        0 <= i < names.len() && ((#[trigger] names[i]).verdict matches Ok(address) && address@
            == who)
}

proof fn lemma_named(names: Seq<AddrText>)
    ensures
        addresses(addrs_view(names)) is Ok <==> names_valid(names),
        addresses(addrs_view(names)) matches Err(e) ==> e == ContractError::Std(
            first_objection(names),
        ),
        addresses(addrs_view(names)) matches Ok(list) ==> list.no_duplicates() && forall|
            who: Seq<char>,
        |
            #![trigger list.contains(who)]
            list.contains(who) <==> names_hold(names, who),
{
    let shown = addrs_view(names);
    lemma_addresses(shown);
    if names_valid(names) {
        assert forall|i: int| 0 <= i < shown.len() implies (#[trigger] shown[i]).verdict is Ok by {
            assert(names[i].verdict is Ok);
        }
    } else {
        let i = choose|i: int| 0 <= i < names.len() && !((#[trigger] names[i]).verdict is Ok);
        assert(!(shown[i].verdict is Ok));
        let k = lemma_first_invalid(names);
        let head = shown.take(k);
        lemma_addresses(head);
        assert forall|j: int| 0 <= j < head.len() implies (#[trigger] head[j]).verdict is Ok by {
            assert(names[j].verdict is Ok);
        }
        assert(shown.take(k + 1).drop_last() =~= head);
        lemma_addresses_failure(shown, k + 1);
    }
    if addresses(shown) is Ok {
        let list = addresses(shown)->Ok_0;
        assert forall|who: Seq<char>|
            #![trigger list.contains(who)]
            list.contains(who) <==> names_hold(names, who) by {
            if list.contains(who) {
                let i = choose|i: int|
                    0 <= i < shown.len() && (#[trigger] shown[i]).verdict == Ok::<
                        Seq<char>,
                        Seq<char>,
                    >(who);
                assert(names[i].verdict matches Ok(address) && address@ == who);
            }
            if names_hold(names, who) {
                let i = choose|i: int|
                    0 <= i < names.len() && ((#[trigger] names[i]).verdict matches Ok(address)
                        && address@ == who);
                assert(shown[i].verdict == Ok::<Seq<char>, Seq<char>>(who));
            }
        }
    }
}

proof fn lemma_starting_game(info: InfoView, msg: InstantiateMsg)
    requires
        msg.admin matches Some(name) ==> name.verdict is Ok,
    ensures
        ({
            let a = requested_config(info, msg);
            let b = starting_config(info, msg);
            &&& a.admin == b.admin
            &&& a.denom == b.denom
            &&& a.ticket_price == b.ticket_price
            &&& a.draw_interval == b.draw_interval
            &&& a.numbers_per_ticket == b.numbers_per_ticket
            &&& a.number_max == b.number_max
            &&& a.split == b.split
        }),
{
}

proof fn lemma_starting_modes(info: InfoView, msg: InstantiateMsg)
    requires
        msg.admin matches Some(name) ==> name.verdict is Ok,
    ensures
        ({
            let a = requested_config(info, msg);
            let b = starting_config(info, msg);
            &&& a.rollover_on_no_winner == b.rollover_on_no_winner
            &&& a.paused == b.paused
            &&& a.randomness_mode == b.randomness_mode
            &&& a.verify_mode == b.verify_mode
            &&& a.drand_pubkey == b.drand_pubkey
            &&& a.drand_chain_hash == b.drand_chain_hash
        }),
{
}

proof fn lemma_starting_clock(info: InfoView, msg: InstantiateMsg)
    requires
        msg.admin matches Some(name) ==> name.verdict is Ok,
    ensures
        ({
            let a = requested_config(info, msg);
            let b = starting_config(info, msg);
            &&& a.drand_genesis_time == b.drand_genesis_time
            &&& a.drand_period == b.drand_period
        }),
{
}

proof fn lemma_starting_limits(info: InfoView, msg: InstantiateMsg)
    requires
        msg.admin matches Some(name) ==> name.verdict is Ok,
    ensures
        ({
            let a = requested_config(info, msg);
            let b = starting_config(info, msg);
            &&& a.min_claim_usaf == b.min_claim_usaf
            &&& a.reveal_timeout == b.reveal_timeout
            &&& a.open_code_registration == b.open_code_registration
            &&& a.max_dry_rounds == b.max_dry_rounds
        }),
{
}

proof fn lemma_starting_config(info: InfoView, msg: InstantiateMsg)
    requires
        msg.admin matches Some(name) ==> name.verdict is Ok,
    ensures
        requested_config(info, msg) == (ConfigView {
            authorized_submitters: requested_config(info, msg).authorized_submitters,
            ..starting_config(info, msg)
        }),
{
    lemma_starting_game(info, msg);
    lemma_starting_modes(info, msg);
    lemma_starting_clock(info, msg);
    lemma_starting_limits(info, msg);
    lemma_config_by_fields(requested_config(info, msg), starting_config(info, msg));
}

proof fn lemma_config_by_fields(a: ConfigView, b: ConfigView)
    requires
        a.admin == b.admin,
        a.denom == b.denom,
        a.ticket_price == b.ticket_price,
        a.draw_interval == b.draw_interval,
        a.numbers_per_ticket == b.numbers_per_ticket,
        a.number_max == b.number_max,
        a.split == b.split,
        a.rollover_on_no_winner == b.rollover_on_no_winner,
        a.paused == b.paused,
        a.randomness_mode == b.randomness_mode,
        a.verify_mode == b.verify_mode,
        a.drand_pubkey == b.drand_pubkey,
        a.drand_chain_hash == b.drand_chain_hash,
        a.drand_genesis_time == b.drand_genesis_time,
        a.drand_period == b.drand_period,
        a.min_claim_usaf == b.min_claim_usaf,
        a.reveal_timeout == b.reveal_timeout,
        a.open_code_registration == b.open_code_registration,
        a.max_dry_rounds == b.max_dry_rounds,
    ensures
        a == (ConfigView { authorized_submitters: a.authorized_submitters, ..b }),
{
}

proof fn lemma_starting_submitters(info: InfoView, msg: InstantiateMsg)
    ensures
        requested_config(info, msg).authorized_submitters == addresses(
            addrs_view(msg.authorized_submitters@),
        )->Ok_0,
{
}

proof fn lemma_same_objections(a: ConfigView, b: ConfigView)
    requires
        a == (ConfigView { authorized_submitters: a.authorized_submitters, ..b }),
    ensures
        rules_refusal(a) == rules_objection(b),
        randomness_config_refusal(a) == drand_objection(b),
{
}

/// A new contract starts as asked for: with the settings or their defaults, everyone
/// named as a submitter once, a first round that is open from now on for the draw
/// interval, and no money, bindings, codes or streak. It is refused where the rules do
/// not allow it.
pub proof fn law_new_contract_starts_as_asked(env: Env, info: InfoView, msg: InstantiateMsg)
    ensures
        ({
            let outcome = instantiate_outcome(env, info, msg);
            let config = starting_config(info, msg);
            let names = msg.authorized_submitters@;
            if msg.admin matches Some(name) && name.verdict is Err {
                outcome == Err::<(StateView, ResponseView), ErrorView>(
                    ContractError::Std(msg.admin->0.verdict->Err_0@),
                )
            } else if rules_objection(config) is Some {
                outcome == Err::<(StateView, ResponseView), ErrorView>(rules_objection(config)->0)
            } else if !names_valid(names) {
                outcome == Err::<(StateView, ResponseView), ErrorView>(
                    ContractError::Std(first_objection(names)),
                )
            } else if drand_objection(config) is Some {
                outcome == Err::<(StateView, ResponseView), ErrorView>(drand_objection(config)->0)
            } else if seconds_of(env) + config.draw_interval > u64::MAX {
                outcome == Err::<(StateView, ResponseView), ErrorView>(
                    ContractError::InvalidConfig {
                        reason: "draw_interval overflows round close time"@,
                    },
                )
            } else {
                &&& outcome matches Ok((s, response)) && {
                    let closes = seconds_of(env) + config.draw_interval;
                    &&& response.messages.len() == 0
                    &&& s.version == (ContractVersion {
                        contract: "crates.io:winsaf"@,
                        version: "0.1.0"@,
                    })
                    &&& s.config == (ConfigView {
                        authorized_submitters: s.config.authorized_submitters,
                        ..config
                    })
                    &&& s.config.authorized_submitters.no_duplicates()
                    &&& s.treasury == 0 && s.dry_streak == 0
                    &&& s.rounds.len() == 1
                    &&& is_fresh(s.rounds[0], 1, seconds_of(env), closes)
                    &&& s.rounds[0].round.pool == 0
                    &&& s.referrer.dom().is_empty() && s.earnings.dom().is_empty()
                    &&& s.codes.dom().is_empty() && s.totals.dom().is_empty()
                }
                &&& forall|who: Seq<char>|
                    #![trigger outcome->Ok_0.0.config.authorized_submitters.contains(who)]
                    outcome->Ok_0.0.config.authorized_submitters.contains(who) <==> names_hold(
                        names,
                        who,
                    )
            }
        }),
{
    lemma_named(msg.authorized_submitters@);
    if !(msg.admin matches Some(name) && name.verdict is Err) {
        lemma_starting_config(info, msg);
        lemma_starting_submitters(info, msg);
        lemma_same_objections(requested_config(info, msg), starting_config(info, msg));
    }
}

} // verus!
