//! What the admin can rely on, and what the others can rely on of the admin.

use crate::admin::randomness_config_refusal;
use crate::beacon::bytes_view;
use crate::contract::{execute_outcome, migrate_outcome};
use crate::error::{ContractError, ErrorView, SharedError};
use crate::host::{addr_option_view, addrs_view, text_view, AddrText, AddrView, Env, InfoView};
use crate::money::Coin;
use crate::msg::ExecuteMsg;
use crate::response::{ResponseView, SendView};
use crate::settings::{
    admin_changed, beacon_changed, chain_changed, changed, coin_option_view, floor_changed,
    genesis_changed, interval_changed, lemma_extension_failure, lemma_reduction_failure,
    limits_changed, mode_changed, modes_changed, names_view, price_changed, pubkey_changed,
    registration_changed, rollover_changed, roster, roster_extended, roster_reduced, split_changed,
    submitters_added, submitters_removed, switches_changed, timeout_changed, without, ChangeView,
    Roster, SetConfigArgs,
};
use crate::split::FundSplitBps;
use crate::state::{ConfigView, ContractVersion, RandomnessMode, StateView, VerifyMode};
use crate::text::decimal;
use vstd::prelude::*;

verus! {

/// What is asked for, or what there is where nothing is.
pub open spec fn or_else<T>(asked: Option<T>, kept: T) -> T {
    match asked {
        Some(value) => value,
        None => kept,
    }
}

/// A withdrawal pays the admin's recipient out of the treasury, as much as is asked for
/// and there, and changes nothing else.
pub proof fn law_withdrawal_pays_out_of_the_treasury(
    s: StateView,
    env: Env,
    info: InfoView,
    to: AddrText,
    amount: u128,
)
    ensures
        ({
            let outcome = execute_outcome(
                s,
                env,
                info,
                ExecuteMsg::WithdrawTreasury { to, amount },
            );
            if info.sender != s.config.admin {
                outcome == Err::<(StateView, ResponseView), ErrorView>(
                    ContractError::Unauthorized { role: "admin"@ },
                )
            } else if amount == 0 {
                outcome == Err::<(StateView, ResponseView), ErrorView>(ContractError::ZeroWithdraw)
            } else if to.verdict is Err {
                outcome == Err::<(StateView, ResponseView), ErrorView>(
                    ContractError::Std(to.verdict->Err_0@),
                )
            } else if amount > s.treasury {
                outcome == Err::<(StateView, ResponseView), ErrorView>(
                    ContractError::InsufficientTreasury {
                        requested: decimal(amount as nat),
                        available: decimal(s.treasury),
                    },
                )
            } else {
                outcome matches Ok((next, response)) && next == (StateView {
                    treasury: (s.treasury - amount) as nat,
                    ..s
                }) && response.messages == seq![
                    SendView {
                        to_address: to.verdict->Ok_0@,
                        amount: seq![Coin { denom: s.config.denom, amount }],
                    },
                ]
            }
        }),
{
}

/// Pausing and resuming set the one switch, for the admin alone.
pub proof fn law_pause_sets_the_switch(s: StateView, env: Env, info: InfoView, pause: bool)
    ensures
        ({
            let outcome = execute_outcome(
                s,
                env,
                info,
                if pause {
                    ExecuteMsg::Pause {  }
                } else {
                    ExecuteMsg::Unpause {  }
                },
            );
            if info.sender != s.config.admin {
                outcome == Err::<(StateView, ResponseView), ErrorView>(
                    ContractError::Unauthorized { role: "admin"@ },
                )
            } else {
                outcome matches Ok((next, response)) && response.messages.len() == 0 && next == (
                StateView { config: ConfigView { paused: pause, ..s.config }, ..s })
            }
        }),
{
}

/// A migration is for states of this contract, and changes nothing but their version.
pub proof fn law_migration_changes_the_version_alone(s: StateView)
    ensures
        if s.version.contract != "crates.io:winsaf"@ {
            migrate_outcome(s) == Err::<(StateView, ResponseView), ErrorView>(
                ContractError::InvalidMigration {
                    expected: "crates.io:winsaf"@,
                    found: s.version.contract,
                },
            )
        } else {
            migrate_outcome(s) matches Ok((next, response)) && response.messages.len() == 0
                && next == (StateView {
                version: ContractVersion { contract: "crates.io:winsaf"@, version: "0.1.0"@ },
                ..s
            })
        },
{
}

// --- Settings ----------------------------------------------------------------

pub proof fn lemma_modes_config(c: ChangeView, args: SetConfigArgs)
    ensures
        modes_changed(c, args).config == (ConfigView {
            rollover_on_no_winner: or_else(
                args.rollover_on_no_winner,
                c.config.rollover_on_no_winner,
            ),
            randomness_mode: or_else(args.randomness_mode, c.config.randomness_mode),
            verify_mode: or_else(args.verify_mode, c.config.verify_mode),
            ..c.config
        }),
{
    let a = rollover_changed(c, args.rollover_on_no_winner);
    let b = mode_changed(a, args.randomness_mode);
    assert(b.config.verify_mode == c.config.verify_mode);
}

pub proof fn lemma_beacon_config(c: ChangeView, args: SetConfigArgs)
    ensures
        beacon_changed(c, args).config == (ConfigView {
            drand_pubkey: or_else(bytes_view(args.drand_pubkey), c.config.drand_pubkey),
            drand_chain_hash: or_else(
                text_view(args.drand_chain_hash),
                c.config.drand_chain_hash,
            ),
            drand_genesis_time: or_else(args.drand_genesis_time, c.config.drand_genesis_time),
            drand_period: or_else(args.drand_period, c.config.drand_period),
            ..c.config
        }),
{
    let a = pubkey_changed(c, bytes_view(args.drand_pubkey));
    let b = chain_changed(a, text_view(args.drand_chain_hash));
    let d = genesis_changed(b, args.drand_genesis_time);
    assert(d.config.drand_period == c.config.drand_period);
}

pub proof fn lemma_limits_config(c: ChangeView, args: SetConfigArgs)
    ensures
        limits_changed(c, args).config == (ConfigView {
            min_claim_usaf: or_else(args.min_claim_usaf, c.config.min_claim_usaf),
            reveal_timeout: or_else(args.reveal_timeout, c.config.reveal_timeout),
            open_code_registration: or_else(
                args.open_code_registration,
                c.config.open_code_registration,
            ),
            max_dry_rounds: or_else(args.max_dry_rounds, c.config.max_dry_rounds),
            ..c.config
        }),
{
    let a = floor_changed(c, args.min_claim_usaf);
    let b = timeout_changed(a, args.reveal_timeout);
    let d = registration_changed(b, args.open_code_registration);
    assert(d.config.max_dry_rounds == c.config.max_dry_rounds);
}

/// The configuration that is asked for, but for the submitters and the beacon's clock.
pub open spec fn asked_config(config: ConfigView, args: SetConfigArgs) -> ConfigView {
    ConfigView {
        admin: match args.admin {
            Some(name) => name@.verdict->Ok_0,
            None => config.admin,
        },
        ticket_price: or_else(coin_option_view(args.ticket_price), config.ticket_price),
        draw_interval: or_else(args.draw_interval, config.draw_interval),
        split: or_else(args.split, config.split),
        rollover_on_no_winner: or_else(args.rollover_on_no_winner, config.rollover_on_no_winner),
        randomness_mode: or_else(args.randomness_mode, config.randomness_mode),
        verify_mode: or_else(args.verify_mode, config.verify_mode),
        drand_pubkey: or_else(bytes_view(args.drand_pubkey), config.drand_pubkey),
        drand_chain_hash: or_else(text_view(args.drand_chain_hash), config.drand_chain_hash),
        drand_genesis_time: or_else(args.drand_genesis_time, config.drand_genesis_time),
        drand_period: or_else(args.drand_period, config.drand_period),
        min_claim_usaf: or_else(args.min_claim_usaf, config.min_claim_usaf),
        reveal_timeout: or_else(args.reveal_timeout, config.reveal_timeout),
        open_code_registration: or_else(
            args.open_code_registration,
            config.open_code_registration,
        ),
        max_dry_rounds: or_else(args.max_dry_rounds, config.max_dry_rounds),
        ..config
    }
}

/// Whether the host accepts all of the names.
pub open spec fn all_valid(names: Option<Vec<AddrText>>) -> bool {
    match names {
        Some(list) => forall|i: int| 0 <= i < list@.len() ==> (#[trigger] list@[i]).verdict is Ok,
        None => true,
    }
}

/// Whether an address is behind one of the names.
pub open spec fn is_named(names: Option<Vec<AddrText>>, who: Seq<char>) -> bool {
    match names {
        Some(list) => exists|i: int|
            0 <= i < list@.len() && ((#[trigger] list@[i]).verdict matches Ok(address)
                && address@ == who),
        None => false,
    }
}

proof fn lemma_extended(start: Roster, names: Seq<AddrView>)
    ensures
        roster_extended(start, names) is Ok <==> forall|i: int|
            0 <= i < names.len() ==> (#[trigger] names[i]).verdict is Ok,
        roster_extended(start, names) matches Ok(r) ==> forall|who: Seq<char>|
            #![trigger r.submitters.contains(who)]
            r.submitters.contains(who) <==> start.submitters.contains(who) || exists|i: int|
                0 <= i < names.len() && (#[trigger] names[i]).verdict == Ok::<
                    Seq<char>,
                    Seq<char>,
                >(who),
        roster_extended(start, names) matches Ok(r) ==> start.submitters.no_duplicates()
            ==> r.submitters.no_duplicates(),
    decreases names.len(),
{
    if names.len() > 0 {
        let rest = names.drop_last();
        let last = names[names.len() - 1];
        lemma_extended(start, rest);
        assert(forall|i: int| 0 <= i < rest.len() ==> rest[i] == names[i]);
        if roster_extended(start, rest) is Err {
            let i = choose|i: int| 0 <= i < rest.len() && !((#[trigger] rest[i]).verdict is Ok);
            assert(!(names[i].verdict is Ok));
        } else if roster_extended(start, names) is Ok {
            let q = roster_extended(start, rest)->Ok_0;
            let r = roster_extended(start, names)->Ok_0;
            let address = last.verdict->Ok_0;
            assert forall|who: Seq<char>|
                #![trigger r.submitters.contains(who)]
                r.submitters.contains(who) <==> q.submitters.contains(who) || who == address by {
                if !q.submitters.contains(address) {
                    assert(r.submitters == q.submitters.push(address));
                    if q.submitters.contains(who) {
                        let i = choose|i: int|
                            0 <= i < q.submitters.len() && q.submitters[i] == who;
                        assert(r.submitters[i] == who);
                    }
                    assert(r.submitters[q.submitters.len() as int] == address);
                }
            }
            assert forall|who: Seq<char>|
                #![trigger r.submitters.contains(who)]
                r.submitters.contains(who) <==> start.submitters.contains(who) || exists|i: int|
                    0 <= i < names.len() && (#[trigger] names[i]).verdict == Ok::<
                        Seq<char>,
                        Seq<char>,
                    >(who) by {
                if exists|i: int|
                    0 <= i < rest.len() && (#[trigger] rest[i]).verdict == Ok::<
                        Seq<char>,
                        Seq<char>,
                    >(who) {
                    let i = choose|i: int|
                        0 <= i < rest.len() && (#[trigger] rest[i]).verdict == Ok::<
                            Seq<char>,
                            Seq<char>,
                        >(who);
                    assert(names[i].verdict == Ok::<Seq<char>, Seq<char>>(who));
                }
                if exists|i: int|
                    0 <= i < names.len() && (#[trigger] names[i]).verdict == Ok::<
                        Seq<char>,
                        Seq<char>,
                    >(who) {
                    let i = choose|i: int|
                        0 <= i < names.len() && (#[trigger] names[i]).verdict == Ok::<
                            Seq<char>,
                            Seq<char>,
                        >(who);
                    if i < rest.len() {
                        assert(rest[i].verdict == Ok::<Seq<char>, Seq<char>>(who));
                    }
                }
            }
        }
    }
}

proof fn lemma_without(list: Seq<Seq<char>>, text: Seq<char>)
    ensures
        forall|who: Seq<char>|
            #![trigger without(list, text).contains(who)]
            without(list, text).contains(who) <==> list.contains(who) && who != text,
    decreases list.len(),
{
    if list.len() > 0 {
        let rest = list.drop_last();
        let last = list[list.len() - 1];
        lemma_without(rest, text);
        let w = without(rest, text);
        let r = without(list, text);
        assert forall|who: Seq<char>|
            #![trigger r.contains(who)]
            r.contains(who) <==> list.contains(who) && who != text by {
            if rest.contains(who) {
                let i = choose|i: int| 0 <= i < rest.len() && rest[i] == who;
                assert(list[i] == who);
            }
            if list.contains(who) && who != last {
                let i = choose|i: int| 0 <= i < list.len() && list[i] == who;
                assert(rest[i] == who);
            }
            if last != text {
                assert(r == w.push(last));
                assert(r[w.len() as int] == last);
                if w.contains(who) {
                    let i = choose|i: int| 0 <= i < w.len() && w[i] == who;
                    assert(r[i] == who);
                }
                if r.contains(who) && who != last {
                    let i = choose|i: int| 0 <= i < r.len() && r[i] == who;
                    assert(w[i] == who);
                }
            }
        }
    }
}

proof fn lemma_reduced(start: Roster, names: Seq<AddrView>)
    ensures
        roster_reduced(start, names) is Ok <==> forall|i: int|
            0 <= i < names.len() ==> (#[trigger] names[i]).verdict is Ok,
        roster_reduced(start, names) matches Ok(r) ==> forall|who: Seq<char>|
            #![trigger r.submitters.contains(who)]
            r.submitters.contains(who) <==> start.submitters.contains(who) && !exists|i: int|
                0 <= i < names.len() && (#[trigger] names[i]).verdict == Ok::<
                    Seq<char>,
                    Seq<char>,
                >(who),
    decreases names.len(),
{
    if names.len() > 0 {
        let rest = names.drop_last();
        let last = names[names.len() - 1];
        lemma_reduced(start, rest);
        assert(forall|i: int| 0 <= i < rest.len() ==> rest[i] == names[i]);
        if roster_reduced(start, rest) is Err {
            let i = choose|i: int| 0 <= i < rest.len() && !((#[trigger] rest[i]).verdict is Ok);
            assert(!(names[i].verdict is Ok));
        } else if roster_reduced(start, names) is Ok {
            let q = roster_reduced(start, rest)->Ok_0;
            let r = roster_reduced(start, names)->Ok_0;
            let address = last.verdict->Ok_0;
            lemma_without(q.submitters, address);
            assert forall|who: Seq<char>|
                #![trigger r.submitters.contains(who)]
                r.submitters.contains(who) <==> start.submitters.contains(who) && !exists|i: int|
                    0 <= i < names.len() && (#[trigger] names[i]).verdict == Ok::<
                        Seq<char>,
                        Seq<char>,
                    >(who) by {
                if exists|i: int|
                    0 <= i < rest.len() && (#[trigger] rest[i]).verdict == Ok::<
                        Seq<char>,
                        Seq<char>,
                    >(who) {
                    let i = choose|i: int|
                        0 <= i < rest.len() && (#[trigger] rest[i]).verdict == Ok::<
                            Seq<char>,
                            Seq<char>,
                        >(who);
                    assert(names[i].verdict == Ok::<Seq<char>, Seq<char>>(who));
                }
                if exists|i: int|
                    0 <= i < names.len() && (#[trigger] names[i]).verdict == Ok::<
                        Seq<char>,
                        Seq<char>,
                    >(who) {
                    let i = choose|i: int|
                        0 <= i < names.len() && (#[trigger] names[i]).verdict == Ok::<
                            Seq<char>,
                            Seq<char>,
                        >(who);
                    if i < rest.len() {
                        assert(rest[i].verdict == Ok::<Seq<char>, Seq<char>>(who));
                    } else {
                        assert(who == address);
                    }
                }
            }
        }
    }
}

proof fn lemma_names(names: Option<Vec<AddrText>>, who: Seq<char>)
    requires
        names is Some,
    ensures
        all_valid(names) <==> forall|i: int|
            0 <= i < names->0@.len() ==> (#[trigger] addrs_view(names->0@)[i]).verdict is Ok,
        is_named(names, who) <==> exists|i: int|
            0 <= i < names->0@.len() && (#[trigger] addrs_view(names->0@)[i]).verdict == Ok::<
                Seq<char>,
                Seq<char>,
            >(who),
{
    let list = names->0@;
    let shown = addrs_view(list);
    if all_valid(names) {
        assert forall|i: int| 0 <= i < list.len() implies (#[trigger] shown[i]).verdict is Ok by {
            assert(list[i].verdict is Ok);
        }
    }
    if forall|i: int| 0 <= i < list.len() ==> (#[trigger] shown[i]).verdict is Ok {
        assert forall|i: int| 0 <= i < list.len() implies (#[trigger] list[i]).verdict is Ok by {
            assert(shown[i].verdict is Ok);
        }
    }
    if is_named(names, who) {
        let i = choose|i: int|
            0 <= i < list.len() && ((#[trigger] list[i]).verdict matches Ok(address) && address@
                == who);
        assert(shown[i].verdict == Ok::<Seq<char>, Seq<char>>(who));
    }
    if exists|i: int|
        0 <= i < list.len() && (#[trigger] shown[i]).verdict == Ok::<Seq<char>, Seq<char>>(who) {
        let i = choose|i: int|
            0 <= i < list.len() && (#[trigger] shown[i]).verdict == Ok::<Seq<char>, Seq<char>>(
                who,
            );
        assert(list[i].verdict matches Ok(address) && address@ == who);
    }
}

proof fn lemma_submitters(c: ChangeView, args: SetConfigArgs)
    ensures
        ({
            let added = submitters_added(c, names_view(args.add_submitters));
            let both = submitters_removed(added->Ok_0, names_view(args.remove_submitters));
            &&& added is Ok <==> all_valid(args.add_submitters)
            &&& added is Ok ==> (both is Ok <==> all_valid(args.remove_submitters))
            &&& added is Ok && both is Ok ==> {
                let after = both->Ok_0.config;
                &&& after == (ConfigView {
                    authorized_submitters: after.authorized_submitters,
                    ..c.config
                })
                &&& forall|who: Seq<char>|
                    #![trigger after.authorized_submitters.contains(who)]
                    after.authorized_submitters.contains(who) <==> (
                    c.config.authorized_submitters.contains(who) || is_named(
                        args.add_submitters,
                        who,
                    )) && !is_named(args.remove_submitters, who)
            }
        }),
{
    let added = submitters_added(c, names_view(args.add_submitters));
    if let Some(list) = args.add_submitters {
        lemma_extended(roster(c), addrs_view(list@));
        lemma_names(args.add_submitters, Seq::empty());
    }
    if added is Ok {
        let a = added->Ok_0;
        if let Some(list) = args.remove_submitters {
            lemma_reduced(roster(a), addrs_view(list@));
            lemma_names(args.remove_submitters, Seq::empty());
        }
        let both = submitters_removed(a, names_view(args.remove_submitters));
        if both is Ok {
            let after = both->Ok_0.config;
            assert forall|who: Seq<char>|
                #![trigger after.authorized_submitters.contains(who)]
                after.authorized_submitters.contains(who) <==> (
                c.config.authorized_submitters.contains(who) || is_named(
                    args.add_submitters,
                    who,
                )) && !is_named(args.remove_submitters, who) by {
                assert(a.config.authorized_submitters.contains(who) <==> (
                c.config.authorized_submitters.contains(who) || is_named(
                    args.add_submitters,
                    who,
                ))) by {
                    if args.add_submitters is Some {
                        lemma_names(args.add_submitters, who);
                    }
                }
                if args.remove_submitters is Some {
                    lemma_names(args.remove_submitters, who);
                }
            }
        }
    }
}

/// The host's objection to the first of the names that it does not accept.
pub open spec fn first_objection(names: Seq<AddrText>) -> Seq<char>
    decreases names.len(),
{
    if names.len() == 0 {
        Seq::empty()
    } else {
        match names[0].verdict {
            Err(reason) => reason@,
            Ok(_) => first_objection(names.drop_first()),
        }
    }
}

proof fn lemma_first_objection(names: Seq<AddrText>, k: int)
    requires
        0 <= k < names.len(),
        names[k].verdict is Err,
        forall|i: int| 0 <= i < k ==> (#[trigger] names[i]).verdict is Ok,
    ensures
        first_objection(names) == names[k].verdict->Err_0@,
    decreases k,
{
    if k > 0 {
        assert(names[0].verdict is Ok);
        let rest = names.drop_first();
        assert(rest[k - 1] == names[k]);
        assert forall|i: int| 0 <= i < k - 1 implies (#[trigger] rest[i]).verdict is Ok by {
            assert(rest[i] == names[i + 1]);
        }
        lemma_first_objection(rest, k - 1);
    }
}

/// Finds the first name that the host does not accept.
pub proof fn lemma_first_invalid(names: Seq<AddrText>) -> (k: int)
    requires
        !(forall|i: int| 0 <= i < names.len() ==> (#[trigger] names[i]).verdict is Ok),
    ensures
        0 <= k < names.len(),
        names[k].verdict is Err,
        forall|i: int| 0 <= i < k ==> (#[trigger] names[i]).verdict is Ok,
        first_objection(names) == names[k].verdict->Err_0@,
    decreases names.len(),
{
    let rest = names.drop_last();
    if forall|i: int| 0 <= i < rest.len() ==> (#[trigger] rest[i]).verdict is Ok {
        let k = names.len() - 1;
        assert forall|i: int| 0 <= i < k implies (#[trigger] names[i]).verdict is Ok by {
            assert(rest[i].verdict is Ok);
        }
        lemma_first_objection(names, k);
        k
    } else {
        let k = lemma_first_invalid(rest);
        assert forall|i: int| 0 <= i < k implies (#[trigger] names[i]).verdict is Ok by {
            assert(rest[i].verdict is Ok);
        }
        lemma_first_objection(names, k);
        k
    }
}

proof fn lemma_extension_objection(start: Roster, names: Seq<AddrText>)
    requires
        roster_extended(start, addrs_view(names)) is Err,
    ensures
        roster_extended(start, addrs_view(names)) == Err::<Roster, ErrorView>(
            ContractError::Std(first_objection(names)),
        ),
{
    let shown = addrs_view(names);
    lemma_extended(start, shown);
    if forall|i: int| 0 <= i < names.len() ==> (#[trigger] names[i]).verdict is Ok {
        assert forall|i: int| 0 <= i < shown.len() implies (#[trigger] shown[i]).verdict is Ok by {
            assert(names[i].verdict is Ok);
        }
    }
    let k = lemma_first_invalid(names);
    let head = shown.take(k);
    lemma_extended(start, head);
    assert forall|i: int| 0 <= i < head.len() implies (#[trigger] head[i]).verdict is Ok by {
        assert(names[i].verdict is Ok);
    }
    assert(shown.take(k + 1).drop_last() =~= head);
    lemma_extension_failure(start, shown, k + 1);
}

proof fn lemma_reduction_objection(start: Roster, names: Seq<AddrText>)
    requires
        roster_reduced(start, addrs_view(names)) is Err,
    ensures
        roster_reduced(start, addrs_view(names)) == Err::<Roster, ErrorView>(
            ContractError::Std(first_objection(names)),
        ),
{
    let shown = addrs_view(names);
    lemma_reduced(start, shown);
    if forall|i: int| 0 <= i < names.len() ==> (#[trigger] names[i]).verdict is Ok {
        assert forall|i: int| 0 <= i < shown.len() implies (#[trigger] shown[i]).verdict is Ok by {
            assert(names[i].verdict is Ok);
        }
    }
    let k = lemma_first_invalid(names);
    let head = shown.take(k);
    lemma_reduced(start, head);
    assert forall|i: int| 0 <= i < head.len() implies (#[trigger] head[i]).verdict is Ok by {
        assert(names[i].verdict is Ok);
    }
    assert(shown.take(k + 1).drop_last() =~= head);
    lemma_reduction_failure(start, shown, k + 1);
}

/// Why a split of the revenue is refused: a share above the whole, the first one, or
/// shares that do not add up to the whole.
pub open spec fn split_objection(split: FundSplitBps) -> Option<ErrorView> {
    let sum = split.prize_bps + split.referral_bps + split.treasury_bps;
    if split.prize_bps > 10_000 {
        Some(ContractError::Shared(SharedError::BpsOutOfRange { value: split.prize_bps }))
    } else if split.referral_bps > 10_000 {
        Some(ContractError::Shared(SharedError::BpsOutOfRange { value: split.referral_bps }))
    } else if split.treasury_bps > 10_000 {
        Some(ContractError::Shared(SharedError::BpsOutOfRange { value: split.treasury_bps }))
    } else if sum != 10_000 {
        Some(ContractError::Shared(SharedError::InvalidSplitSum { actual: sum as u32 }))
    } else {
        None
    }
}

/// Why a setting by itself is refused: the first objection that there is.
pub open spec fn setting_objection(config: ConfigView, args: SetConfigArgs) -> Option<ErrorView> {
    if args.admin matches Some(name) && name.verdict is Err {
        Some(ContractError::Std(args.admin->0.verdict->Err_0@))
    } else if args.ticket_price matches Some(price) && price.denom@ != config.denom {
        Some(
            ContractError::InvalidConfig {
                reason: "ticket_price denom must be '"@ + config.denom + "'"@,
            },
        )
    } else if args.ticket_price matches Some(price) && price.amount == 0 {
        Some(ContractError::InvalidConfig { reason: "ticket_price must be non-zero"@ })
    } else if args.draw_interval == Some(0u64) {
        Some(ContractError::InvalidConfig { reason: "draw_interval must be non-zero"@ })
    } else if args.split is Some {
        split_objection(args.split->0)
    } else {
        None
    }
}

/// Why the settings together are refused: drand needs a chain, and its signatures are
/// checked with a key of 96 bytes.
pub open spec fn drand_objection(config: ConfigView) -> Option<ErrorView> {
    if config.randomness_mode == RandomnessMode::Drand && config.drand_chain_hash.len() == 0 {
        Some(
            ContractError::InvalidConfig { reason: "drand_chain_hash is required in drand mode"@ },
        )
    } else if config.randomness_mode == RandomnessMode::Drand && config.verify_mode
        == VerifyMode::Bls && config.drand_pubkey.len() != 96 {
        Some(
            ContractError::InvalidPubkey {
                reason: "drand mode with BLS verification requires a 96-byte G2 public key"@,
            },
        )
    } else {
        None
    }
}

/// A time of the beacon's clock: what is asked for in drand mode, or the default where
/// that is zero; nothing in the other modes.
pub open spec fn clock_value(mode: RandomnessMode, asked: u64, default: u64) -> u64 {
    if mode != RandomnessMode::Drand {
        0
    } else if asked == 0 {
        default
    } else {
        asked
    }
}

pub proof fn lemma_settings(config: ConfigView, args: SetConfigArgs)
    ensures
        setting_objection(config, args) matches Some(e) ==> changed(config, args) == Err::<
            ChangeView,
            ErrorView,
        >(e),
        setting_objection(config, args) is None ==> {
            &&& changed(config, args) is Ok <==> all_valid(args.add_submitters) && all_valid(
                args.remove_submitters,
            )
            &&& changed(config, args) matches Err(e) ==> e == ContractError::Std(
                first_objection(
                    if !all_valid(args.add_submitters) {
                        args.add_submitters->0@
                    } else {
                        args.remove_submitters->0@
                    },
                ),
            )
            &&& changed(config, args) matches Ok(c) ==> {
                &&& c.config == (ConfigView {
                    authorized_submitters: c.config.authorized_submitters,
                    ..asked_config(config, args)
                })
                &&& forall|who: Seq<char>|
                    #![trigger c.config.authorized_submitters.contains(who)]
                    c.config.authorized_submitters.contains(who) <==> (
                    config.authorized_submitters.contains(who) || is_named(
                        args.add_submitters,
                        who,
                    )) && !is_named(args.remove_submitters, who)
            }
        },
{
    let start = ChangeView { config, changed: Seq::empty() };
    if setting_objection(config, args) is None {
        let a = admin_changed(start, addr_option_view(args.admin))->Ok_0;
        let b = price_changed(a, coin_option_view(args.ticket_price))->Ok_0;
        let c = interval_changed(b, args.draw_interval)->Ok_0;
        let d = split_changed(c, args.split)->Ok_0;
        lemma_modes_config(d, args);
        let e = modes_changed(d, args);
        lemma_beacon_config(e, args);
        let f = beacon_changed(e, args);
        lemma_limits_config(f, args);
        let g = switches_changed(d, args);
        lemma_submitters(g, args);
        lemma_names_err(g, args);
        assert(d.config == (ConfigView {
            admin: asked_config(config, args).admin,
            ticket_price: asked_config(config, args).ticket_price,
            draw_interval: asked_config(config, args).draw_interval,
            split: asked_config(config, args).split,
            ..config
        }));
        assert(g.config == asked_config(config, args));
    }
}

proof fn lemma_names_err(c: ChangeView, args: SetConfigArgs)
    ensures
        submitters_added(c, names_view(args.add_submitters)) matches Err(e) ==> e
            == ContractError::Std(first_objection(args.add_submitters->0@)),
        submitters_added(c, names_view(args.add_submitters)) matches Ok(d) ==> (submitters_removed(
            d,
            names_view(args.remove_submitters),
        ) matches Err(e) ==> e == ContractError::Std(first_objection(args.remove_submitters->0@))),
{
    let added = submitters_added(c, names_view(args.add_submitters));
    if let Some(list) = args.add_submitters {
        if added is Err {
            lemma_extension_objection(roster(c), list@);
        }
    }
    if let Some(list) = args.remove_submitters {
        if added is Ok && submitters_removed(
            added->Ok_0,
            names_view(args.remove_submitters),
        ) is Err {
            lemma_reduction_objection(roster(added->Ok_0), list@);
        }
    }
}

/// The admin changes exactly the settings that are asked for, and only to what the rules
/// allow. A submitter is whoever was one or is added, unless removed. The beacon's
/// clock is that of quicknet where drand mode has none, and none in the other modes.
/// Money, rounds and referrals stay untouched.
pub proof fn law_settings_are_those_asked_for(
    s: StateView,
    env: Env,
    info: InfoView,
    args: SetConfigArgs,
)
    ensures
        ({
            let outcome = execute_outcome(
                s,
                env,
                info,
                ExecuteMsg::SetConfig {
                    admin: args.admin,
                    ticket_price: args.ticket_price,
                    draw_interval: args.draw_interval,
                    split: args.split,
                    rollover_on_no_winner: args.rollover_on_no_winner,
                    randomness_mode: args.randomness_mode,
                    verify_mode: args.verify_mode,
                    drand_pubkey: args.drand_pubkey,
                    drand_chain_hash: args.drand_chain_hash,
                    drand_genesis_time: args.drand_genesis_time,
                    drand_period: args.drand_period,
                    min_claim_usaf: args.min_claim_usaf,
                    reveal_timeout: args.reveal_timeout,
                    open_code_registration: args.open_code_registration,
                    max_dry_rounds: args.max_dry_rounds,
                    add_submitters: args.add_submitters,
                    remove_submitters: args.remove_submitters,
                },
            );
            let asked = asked_config(s.config, args);
            if info.sender != s.config.admin {
                outcome == Err::<(StateView, ResponseView), ErrorView>(
                    ContractError::Unauthorized { role: "admin"@ },
                )
            } else if setting_objection(s.config, args) is Some {
                outcome == Err::<(StateView, ResponseView), ErrorView>(
                    setting_objection(s.config, args)->0,
                )
            } else if !all_valid(args.add_submitters) || !all_valid(args.remove_submitters) {
                outcome == Err::<(StateView, ResponseView), ErrorView>(
                    ContractError::Std(
                        first_objection(
                            if !all_valid(args.add_submitters) {
                                args.add_submitters->0@
                            } else {
                                args.remove_submitters->0@
                            },
                        ),
                    ),
                )
            } else if drand_objection(asked) is Some {
                outcome == Err::<(StateView, ResponseView), ErrorView>(drand_objection(asked)->0)
            } else {
                &&& outcome matches Ok((next, response)) && response.messages.len() == 0 && next
                    == (StateView {
                    config: ConfigView {
                        authorized_submitters: next.config.authorized_submitters,
                        drand_genesis_time: clock_value(
                            asked.randomness_mode,
                            asked.drand_genesis_time,
                            1_692_803_367,
                        ),
                        drand_period: clock_value(asked.randomness_mode, asked.drand_period, 3),
                        ..asked
                    },
                    ..s
                })
                &&& forall|who: Seq<char>|
                    #![trigger outcome->Ok_0.0.config.authorized_submitters.contains(who)]
                    outcome->Ok_0.0.config.authorized_submitters.contains(who) <==> (
                    s.config.authorized_submitters.contains(who) || is_named(
                        args.add_submitters,
                        who,
                    )) && !is_named(args.remove_submitters, who)
            }
        }),
{
    lemma_settings(s.config, args);
    let change = changed(s.config, args);
    if change is Ok {
        let c = change->Ok_0.config;
        assert(randomness_config_refusal(c) == drand_objection(asked_config(s.config, args)));
    }
    let rebuilt = SetConfigArgs {
        admin: args.admin,
        ticket_price: args.ticket_price,
        draw_interval: args.draw_interval,
        split: args.split,
        rollover_on_no_winner: args.rollover_on_no_winner,
        randomness_mode: args.randomness_mode,
        verify_mode: args.verify_mode,
        drand_pubkey: args.drand_pubkey,
        drand_chain_hash: args.drand_chain_hash,
        drand_genesis_time: args.drand_genesis_time,
        drand_period: args.drand_period,
        min_claim_usaf: args.min_claim_usaf,
        reveal_timeout: args.reveal_timeout,
        open_code_registration: args.open_code_registration,
        max_dry_rounds: args.max_dry_rounds,
        add_submitters: args.add_submitters,
        remove_submitters: args.remove_submitters,
    };
    assert(rebuilt == args);
}

} // verus!
