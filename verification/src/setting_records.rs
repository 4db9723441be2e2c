//! What the event of changed settings tells.

use crate::admin_terms::{
    all_valid, lemma_beacon_config, lemma_limits_config, lemma_modes_config, lemma_settings,
    setting_objection,
};
use crate::beacon::bytes_view;
use crate::contract::execute_outcome;
use crate::host::{addr_option_view, addrs_view, text_view, AddrView, Env, InfoView};
use crate::msg::ExecuteMsg;
use crate::response::{Attribute, AttributeView};
use crate::settings::{
    admin_changed, beacon_changed, chain_changed, changed, coin_option_view, floor_changed,
    genesis_changed, interval_changed, limits_changed, mode_changed, modes_changed, names_view,
    price_changed, pubkey_changed, registration_changed, rollover_changed, roster, roster_extended,
    roster_reduced, split_changed, submitters_added, submitters_removed, switches_changed,
    timeout_changed, without, ChangeView, Roster, SetConfigArgs,
};
use crate::split::FundSplitBps;
use crate::state::{ConfigView, RandomnessMode, StateView, VerifyMode};
use crate::text::decimal;
use vstd::prelude::*;

verus! {

/// One line of a record, or none.
pub open spec fn line(key: Seq<char>, value: Option<Seq<char>>) -> Seq<AttributeView> {
    match value {
        Some(v) => seq![Attribute { key, value: v }],
        None => Seq::empty(),
    }
}

/// A number in words, where there is one.
pub open spec fn number(n: Option<u64>) -> Option<Seq<char>> {
    match n {
        Some(v) => Some(decimal(v as nat)),
        None => None,
    }
}

/// A truth value in words, where there is one.
pub open spec fn yes_no(b: Option<bool>) -> Option<Seq<char>> {
    match b {
        Some(v) => Some(
            if v {
                "true"@
            } else {
                "false"@
            },
        ),
        None => None,
    }
}

/// The word that something was updated, where it was.
pub open spec fn updated<T>(value: Option<T>) -> Option<Seq<char>> {
    match value {
        Some(_) => Some("updated"@),
        None => None,
    }
}

/// The lines on a split.
pub open spec fn split_lines(split: Option<FundSplitBps>) -> Seq<AttributeView> {
    match split {
        Some(p) => line("split_prize_bps"@, Some(decimal(p.prize_bps as nat))) + line(
            "split_referral_bps"@,
            Some(decimal(p.referral_bps as nat)),
        ) + line("split_treasury_bps"@, Some(decimal(p.treasury_bps as nat))),
        None => Seq::empty(),
    }
}

/// The lines on the rules of the game.
pub open spec fn game_lines(args: SetConfigArgs) -> Seq<AttributeView> {
    line(
        "admin"@,
        match args.admin {
            Some(name) => Some(name.verdict->Ok_0@),
            None => None,
        },
    ) + line(
        "ticket_price"@,
        match args.ticket_price {
            Some(price) => Some(decimal(price.amount as nat)),
            None => None,
        },
    ) + line("draw_interval"@, number(args.draw_interval)) + split_lines(args.split)
}

/// The lines on the modes.
pub open spec fn mode_lines(args: SetConfigArgs) -> Seq<AttributeView> {
    line("rollover_on_no_winner"@, yes_no(args.rollover_on_no_winner)) + line(
        "randomness_mode"@,
        match args.randomness_mode {
            Some(RandomnessMode::Drand) => Some("drand"@),
            Some(RandomnessMode::CommitReveal) => Some("commit_reveal"@),
            Some(RandomnessMode::Mock) => Some("mock"@),
            None => None,
        },
    ) + line(
        "verify_mode"@,
        match args.verify_mode {
            Some(VerifyMode::Bls) => Some("bls"@),
            Some(VerifyMode::Dev) => Some("dev"@),
            None => None,
        },
    )
}

/// The lines on the beacon.
pub open spec fn beacon_lines(args: SetConfigArgs) -> Seq<AttributeView> {
    line("drand_pubkey"@, updated(args.drand_pubkey)) + line(
        "drand_chain_hash"@,
        updated(args.drand_chain_hash),
    ) + line("drand_genesis_time"@, number(args.drand_genesis_time)) + line(
        "drand_period"@,
        number(args.drand_period),
    )
}

/// The lines on limits.
pub open spec fn limit_lines(args: SetConfigArgs) -> Seq<AttributeView> {
    line(
        "min_claim_usaf"@,
        match args.min_claim_usaf {
            Some(floor) => Some(decimal(floor as nat)),
            None => None,
        },
    ) + line("reveal_timeout"@, number(args.reveal_timeout)) + line(
        "open_code_registration"@,
        yes_no(args.open_code_registration),
    ) + line("max_dry_rounds"@, number(args.max_dry_rounds))
}

proof fn lemma_game(config: ConfigView, args: SetConfigArgs)
    requires
        setting_objection(config, args) is None,
    ensures
        ({
            let start = ChangeView { config, changed: Seq::empty() };
            let a = admin_changed(start, addr_option_view(args.admin));
            let b = price_changed(a->Ok_0, coin_option_view(args.ticket_price));
            let c = interval_changed(b->Ok_0, args.draw_interval);
            let d = split_changed(c->Ok_0, args.split);
            a is Ok && b is Ok && c is Ok && d is Ok && d->Ok_0.changed == game_lines(args)
        }),
{
    let start = ChangeView { config, changed: Seq::empty() };
    let a = admin_changed(start, addr_option_view(args.admin))->Ok_0;
    let l1 = line(
        "admin"@,
        match args.admin {
            Some(name) => Some(name.verdict->Ok_0@),
            None => None,
        },
    );
    assert(a.changed =~= l1);
    let b = price_changed(a, coin_option_view(args.ticket_price))->Ok_0;
    let l2 = line(
        "ticket_price"@,
        match args.ticket_price {
            Some(price) => Some(decimal(price.amount as nat)),
            None => None,
        },
    );
    assert(b.changed =~= l1 + l2);
    let c = interval_changed(b, args.draw_interval)->Ok_0;
    let l3 = line("draw_interval"@, number(args.draw_interval));
    assert(c.changed =~= l1 + l2 + l3);
    let d = split_changed(c, args.split)->Ok_0;
    assert(d.changed =~= l1 + l2 + l3 + split_lines(args.split));
}

proof fn lemma_modes(c: ChangeView, args: SetConfigArgs)
    ensures
        modes_changed(c, args).changed == c.changed + mode_lines(args),
{
    let a = rollover_changed(c, args.rollover_on_no_winner);
    let l1 = line("rollover_on_no_winner"@, yes_no(args.rollover_on_no_winner));
    assert(a.changed =~= c.changed + l1);
    let b = mode_changed(a, args.randomness_mode);
    assert(modes_changed(c, args).changed =~= c.changed + mode_lines(args));
}

proof fn lemma_beacon(c: ChangeView, args: SetConfigArgs)
    ensures
        beacon_changed(c, args).changed == c.changed + beacon_lines(args),
{
    let a = pubkey_changed(c, bytes_view(args.drand_pubkey));
    let l1 = line("drand_pubkey"@, updated(args.drand_pubkey));
    assert(a.changed =~= c.changed + l1);
    let b = chain_changed(a, text_view(args.drand_chain_hash));
    let l2 = line("drand_chain_hash"@, updated(args.drand_chain_hash));
    assert(b.changed =~= c.changed + (l1 + l2));
    let d = genesis_changed(b, args.drand_genesis_time);
    let l3 = line("drand_genesis_time"@, number(args.drand_genesis_time));
    assert(d.changed =~= c.changed + (l1 + l2 + l3));
    assert(beacon_changed(c, args).changed =~= c.changed + beacon_lines(args));
}

proof fn lemma_limits(c: ChangeView, args: SetConfigArgs)
    ensures
        limits_changed(c, args).changed == c.changed + limit_lines(args),
{
    let a = floor_changed(c, args.min_claim_usaf);
    let l1 = line(
        "min_claim_usaf"@,
        match args.min_claim_usaf {
            Some(floor) => Some(decimal(floor as nat)),
            None => None,
        },
    );
    assert(a.changed =~= c.changed + l1);
    let b = timeout_changed(a, args.reveal_timeout);
    let l2 = line("reveal_timeout"@, number(args.reveal_timeout));
    assert(b.changed =~= c.changed + (l1 + l2));
    let d = registration_changed(b, args.open_code_registration);
    let l3 = line("open_code_registration"@, yes_no(args.open_code_registration));
    assert(d.changed =~= c.changed + (l1 + l2 + l3));
    assert(limits_changed(c, args).changed =~= c.changed + limit_lines(args));
}

/// The lines on accounts, one each.
pub open spec fn name_lines(key: Seq<char>, names: Seq<Seq<char>>) -> Seq<AttributeView> {
    Seq::new(names.len(), |i: int| Attribute { key, value: names[i] })
}

proof fn lemma_extension_lines(start: Roster, names: Seq<AddrView>) -> (fresh: Seq<Seq<char>>)
    ensures
        roster_extended(start, names) matches Ok(r) ==> r.submitters == start.submitters + fresh
            && r.changed == start.changed + name_lines("add_submitter"@, fresh),
        fresh.no_duplicates(),
        forall|i: int|
            0 <= i < fresh.len() ==> !start.submitters.contains(#[trigger] fresh[i]),
    decreases names.len(),
{
    let none = Seq::<Seq<char>>::empty();
    if roster_extended(start, names) is Err {
        none
    } else if names.len() == 0 {
        assert(start.submitters + none =~= start.submitters);
        assert(start.changed + name_lines("add_submitter"@, none) =~= start.changed);
        none
    } else {
        let before = lemma_extension_lines(start, names.drop_last());
        let q = roster_extended(start, names.drop_last())->Ok_0;
        let address = names.last().verdict->Ok_0;
        if q.submitters.contains(address) {
            before
        } else {
            let fresh = before.push(address);
            let r = roster_extended(start, names)->Ok_0;
            assert(r.submitters =~= start.submitters + fresh);
            assert(r.changed =~= start.changed + name_lines("add_submitter"@, fresh));
            assert(!start.submitters.contains(address)) by {
                if start.submitters.contains(address) {
                    let i = choose|i: int|
                        0 <= i < start.submitters.len() && start.submitters[i] == address;
                    assert(q.submitters[i] == address);
                }
            }
            assert(!before.contains(address)) by {
                if before.contains(address) {
                    let i = choose|i: int| 0 <= i < before.len() && before[i] == address;
                    assert(q.submitters[start.submitters.len() + i] == address);
                }
            }
            fresh
        }
    }
}

proof fn lemma_reduction_lines(start: Roster, names: Seq<AddrView>)
    ensures
        roster_reduced(start, names) matches Ok(r) ==> r.changed == start.changed + name_lines(
            "remove_submitter"@,
            Seq::new(names.len(), |i: int| names[i].verdict->Ok_0),
        ),
    decreases names.len(),
{
    if roster_reduced(start, names) is Ok {
        let r = roster_reduced(start, names)->Ok_0;
        if names.len() > 0 {
            lemma_reduction_lines(start, names.drop_last());
        }
        assert(r.changed =~= start.changed + name_lines(
            "remove_submitter"@,
            Seq::new(names.len(), |i: int| names[i].verdict->Ok_0),
        ));
    }
}

proof fn lemma_filtered_twice(
    list: Seq<Seq<char>>,
    p: spec_fn(Seq<char>) -> bool,
    q: spec_fn(Seq<char>) -> bool,
    both: spec_fn(Seq<char>) -> bool,
)
    requires
        forall|w: Seq<char>| #[trigger] both(w) <==> p(w) && q(w),
    ensures
        list.filter(p).filter(q) == list.filter(both),
    decreases list.len(),
{
    reveal(Seq::filter);
    if list.len() == 0 {
        assert(list.filter(p) =~= Seq::<Seq<char>>::empty());
        assert(list.filter(p).filter(q) =~= Seq::<Seq<char>>::empty());
        assert(list.filter(both) =~= Seq::<Seq<char>>::empty());
    } else {
        let rest = list.drop_last();
        lemma_filtered_twice(rest, p, q, both);
        let kept = rest.filter(p);
        assert(both(list.last()) <==> p(list.last()) && q(list.last()));
        if p(list.last()) {
            assert(list.filter(p) == kept.push(list.last()));
            assert(kept.push(list.last()).drop_last() =~= kept);
        }
    }
}

proof fn lemma_without_filters(list: Seq<Seq<char>>, text: Seq<char>)
    ensures
        without(list, text) == list.filter(|w: Seq<char>| w != text),
    decreases list.len(),
{
    reveal(Seq::filter);
    if list.len() == 0 {
        assert(list.filter(|w: Seq<char>| w != text) =~= Seq::<Seq<char>>::empty());
        assert(without(list, text) =~= Seq::<Seq<char>>::empty());
    } else {
        lemma_without_filters(list.drop_last(), text);
    }
}

proof fn lemma_reduction_filters(start: Roster, names: Seq<AddrView>)
    ensures
        roster_reduced(start, names) matches Ok(r) ==> r.submitters == start.submitters.filter(
            |w: Seq<char>|
                !Seq::new(names.len(), |i: int| names[i].verdict->Ok_0).contains(w),
        ),
    decreases names.len(),
{
    if roster_reduced(start, names) is Ok {
        let all = Seq::new(names.len(), |i: int| names[i].verdict->Ok_0);
        let stays = |w: Seq<char>| !all.contains(w);
        let r = roster_reduced(start, names)->Ok_0;
        if names.len() == 0 {
            reveal(Seq::filter);
            lemma_filter_all(start.submitters, stays);
        } else {
            let rest = names.drop_last();
            lemma_reduction_filters(start, rest);
            let some = Seq::new(rest.len(), |i: int| rest[i].verdict->Ok_0);
            let p = |w: Seq<char>| !some.contains(w);
            let address = names.last().verdict->Ok_0;
            let q = |w: Seq<char>| w != address;
            let before = roster_reduced(start, rest)->Ok_0;
            lemma_without_filters(before.submitters, address);
            assert(all =~= some.push(address));
            assert forall|w: Seq<char>| #[trigger] stays(w) <==> p(w) && q(w) by {
                if some.contains(w) {
                    let i = choose|i: int| 0 <= i < some.len() && some[i] == w;
                    assert(all[i] == w);
                }
                assert(all[some.len() as int] == address);
                if all.contains(w) && w != address {
                    let i = choose|i: int| 0 <= i < all.len() && all[i] == w;
                    assert(some[i] == w);
                }
            }
            lemma_filtered_twice(start.submitters, p, q, stays);
        }
        assert(r.submitters == start.submitters.filter(stays));
    }
}

proof fn lemma_filter_all(list: Seq<Seq<char>>, p: spec_fn(Seq<char>) -> bool)
    requires
        forall|w: Seq<char>| #[trigger] p(w),
    ensures
        list.filter(p) == list,
    decreases list.len(),
{
    reveal(Seq::filter);
    if list.len() == 0 {
        assert(list.filter(p) =~= list);
    } else {
        lemma_filter_all(list.drop_last(), p);
        assert(p(list.last()));
        assert(list.drop_last().push(list.last()) =~= list);
    }
}

proof fn lemma_switches(c: ChangeView, args: SetConfigArgs)
    ensures
        switches_changed(c, args).changed == c.changed + (mode_lines(args) + beacon_lines(args)
            + limit_lines(args)),
{
    let a = modes_changed(c, args);
    lemma_modes(c, args);
    let b = beacon_changed(a, args);
    lemma_beacon(a, args);
    lemma_limits(b, args);
    lemma_joined(c.changed, mode_lines(args), beacon_lines(args), limit_lines(args));
}

proof fn lemma_joined(
    a: Seq<AttributeView>,
    b: Seq<AttributeView>,
    c: Seq<AttributeView>,
    d: Seq<AttributeView>,
)
    ensures
        a + b + c + d == a + (b + c + d),
{
    assert(a + b + c + d =~= a + (b + c + d));
}

proof fn lemma_switches_keep_submitters(c: ChangeView, args: SetConfigArgs)
    ensures
        switches_changed(c, args).config.authorized_submitters
            == c.config.authorized_submitters,
{
    let a = modes_changed(c, args);
    lemma_modes_config(c, args);
    let b = beacon_changed(a, args);
    lemma_beacon_config(a, args);
    lemma_limits_config(b, args);
}

/// The addresses behind the names of those that are to leave.
pub open spec fn leaving_of(args: SetConfigArgs) -> Seq<Seq<char>> {
    match args.remove_submitters {
        Some(names) => Seq::new(names@.len(), |i: int| names@[i].verdict->Ok_0@),
        None => Seq::empty(),
    }
}

proof fn lemma_joining(g: ChangeView, args: SetConfigArgs) -> (joined: Seq<Seq<char>>)
    ensures
        submitters_added(g, names_view(args.add_submitters)) matches Ok(h) ==> h.changed
            == g.changed + name_lines("add_submitter"@, joined) && h.config.authorized_submitters
            == g.config.authorized_submitters + joined,
        joined.no_duplicates(),
        forall|i: int|
            0 <= i < joined.len() ==> !g.config.authorized_submitters.contains(
                #[trigger] joined[i],
            ),
{
    let none = Seq::<Seq<char>>::empty();
    match args.add_submitters {
        Some(names) => lemma_extension_lines(roster(g), addrs_view(names@)),
        None => {
            assert(g.changed + name_lines("add_submitter"@, none) =~= g.changed);
            assert(g.config.authorized_submitters + none =~= g.config.authorized_submitters);
            none
        },
    }
}

proof fn lemma_leaving(h: ChangeView, args: SetConfigArgs)
    requires
        all_valid(args.remove_submitters),
    ensures
        submitters_removed(h, names_view(args.remove_submitters)) matches Ok(k) ==> k.changed
            == h.changed + name_lines("remove_submitter"@, leaving_of(args))
            && k.config.authorized_submitters == h.config.authorized_submitters.filter(
            |who: Seq<char>| !leaving_of(args).contains(who),
        ),
{
    let leaving = leaving_of(args);
    match args.remove_submitters {
        Some(names) => {
            let shown = addrs_view(names@);
            lemma_reduction_lines(roster(h), shown);
            assert forall|i: int| 0 <= i < names@.len() implies shown[i].verdict->Ok_0
                == leaving[i] by {
                assert(names@[i].verdict is Ok);
            }
            assert(Seq::new(shown.len(), |i: int| shown[i].verdict->Ok_0) =~= leaving);
            lemma_reduction_filters(roster(h), shown);
        },
        None => {
            assert(h.changed + name_lines("remove_submitter"@, leaving) =~= h.changed);
            lemma_filter_all(
                h.config.authorized_submitters,
                |who: Seq<char>| !leaving_of(args).contains(who),
            );
        },
    }
}

proof fn lemma_change_recorded(config: ConfigView, args: SetConfigArgs) -> (joined: Seq<Seq<char>>)
    ensures
        changed(config, args) matches Ok(k) ==> {
            &&& k.changed == game_lines(args) + (mode_lines(args) + beacon_lines(args)
                + limit_lines(args)) + name_lines("add_submitter"@, joined) + name_lines(
                "remove_submitter"@,
                leaving_of(args),
            )
            &&& k.config.authorized_submitters == (config.authorized_submitters + joined).filter(
                |who: Seq<char>| !leaving_of(args).contains(who),
            )
        },
        joined.no_duplicates(),
        forall|i: int|
            0 <= i < joined.len() ==> !config.authorized_submitters.contains(
                #[trigger] joined[i],
            ),
{
    if changed(config, args) is Ok {
        let start = ChangeView { config, changed: Seq::empty() };
        lemma_settings(config, args);
        lemma_game(config, args);
        let a = admin_changed(start, addr_option_view(args.admin))->Ok_0;
        let b = price_changed(a, coin_option_view(args.ticket_price))->Ok_0;
        let c = interval_changed(b, args.draw_interval)->Ok_0;
        let d = split_changed(c, args.split)->Ok_0;
        assert(d.config.authorized_submitters == config.authorized_submitters);
        lemma_switches(d, args);
        lemma_switches_keep_submitters(d, args);
        let g = switches_changed(d, args);
        let joined = lemma_joining(g, args);
        let h = submitters_added(g, names_view(args.add_submitters))->Ok_0;
        lemma_leaving(h, args);
        joined
    } else {
        Seq::empty()
    }
}

/// The record of changed settings has a line for everything that was asked for and
/// nothing else, in a fixed order: the rules, the modes, the beacon and the limits, then
/// the accounts that joined the submitters, then those that were to leave. The
/// submitters are those before and those that joined, in this order, without those
/// that left.
pub proof fn law_settings_are_recorded(
    s: StateView,
    env: Env,
    info: InfoView,
    args: SetConfigArgs,
) -> (joined: Seq<Seq<char>>)
    ensures
        execute_outcome(
            s,
            env,
            info,
            ExecuteMsg::SetConfig {
                admin: args.admin,
                ticket_price: args.ticket_price,
                draw_interval: args.draw_interval,
                split: args.split,
                rollover_on_no_winner: args.rollover_on_no_winner,
                randomness_mode: args.randomness_mode,
                verify_mode: args.verify_mode,
                drand_pubkey: args.drand_pubkey,
                drand_chain_hash: args.drand_chain_hash,
                drand_genesis_time: args.drand_genesis_time,
                drand_period: args.drand_period,
                min_claim_usaf: args.min_claim_usaf,
                reveal_timeout: args.reveal_timeout,
                open_code_registration: args.open_code_registration,
                max_dry_rounds: args.max_dry_rounds,
                add_submitters: args.add_submitters,
                remove_submitters: args.remove_submitters,
            },
        ) matches Ok((next, response)) ==> {
            let leaving = leaving_of(args);
            &&& response.events.len() == 1
            &&& response.events[0].ty == "winsaf/set_config"@
            &&& response.events[0].attributes == game_lines(args) + (mode_lines(args)
                + beacon_lines(args) + limit_lines(args)) + name_lines("add_submitter"@, joined)
                + name_lines("remove_submitter"@, leaving)
            &&& joined.no_duplicates()
            &&& forall|i: int|
                0 <= i < joined.len() ==> !s.config.authorized_submitters.contains(
                    #[trigger] joined[i],
                )
            &&& next.config.authorized_submitters == (s.config.authorized_submitters
                + joined).filter(|who: Seq<char>| !leaving.contains(who))
        },
{
    let rebuilt = SetConfigArgs {
        admin: args.admin,
        ticket_price: args.ticket_price,
        draw_interval: args.draw_interval,
        split: args.split,
        rollover_on_no_winner: args.rollover_on_no_winner,
        randomness_mode: args.randomness_mode,
        verify_mode: args.verify_mode,
        drand_pubkey: args.drand_pubkey,
        drand_chain_hash: args.drand_chain_hash,
        drand_genesis_time: args.drand_genesis_time,
        drand_period: args.drand_period,
        min_claim_usaf: args.min_claim_usaf,
        reveal_timeout: args.reveal_timeout,
        open_code_registration: args.open_code_registration,
        max_dry_rounds: args.max_dry_rounds,
        add_submitters: args.add_submitters,
        remove_submitters: args.remove_submitters,
    };
    assert(rebuilt == args);
    lemma_change_recorded(s.config, args)
}

} // verus!
