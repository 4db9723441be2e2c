//! Changes of the configuration.

use crate::admin::{
    check_price, interval_refusal, not_admin, price_refusal, randomness_config_refusal,
    set_beacon_clock, validate_randomness_config, with_beacon_clock,
};
use crate::beacon::bytes_view;
use crate::error::{ContractError, ErrorView};
use crate::host::{addr_option_view, addrs_view, text_view, AddrText, AddrView, MessageInfo};
use crate::money::{Coin, CoinView};
use crate::outcome::{conforms, Outcome};
use crate::response::{
    add_attribute, attributes_view, Attribute, AttributeView, Event, EventView, Response,
    ResponseView,
};
use crate::split::FundSplitBps;
use crate::state::{
    has_text, verify_mode_str, Config, ConfigView, RandomnessMode, State, StateView, VerifyMode,
};
use crate::text::{bool_text, bool_word, decimal, decimal_text, texts};
use vstd::prelude::*;

verus! {

/// What a change of the configuration asks for; what is left out stays.
#[derive(Debug, PartialEq)]
pub struct SetConfigArgs {
    pub admin: Option<AddrText>,
    pub ticket_price: Option<Coin>,
    pub draw_interval: Option<u64>,
    pub split: Option<FundSplitBps>,
    pub rollover_on_no_winner: Option<bool>,
    pub randomness_mode: Option<RandomnessMode>,
    pub verify_mode: Option<VerifyMode>,
    pub drand_pubkey: Option<Vec<u8>>,
    pub drand_chain_hash: Option<String>,
    pub drand_genesis_time: Option<u64>,
    pub drand_period: Option<u64>,
    pub min_claim_usaf: Option<u128>,
    pub reveal_timeout: Option<u64>,
    pub open_code_registration: Option<bool>,
    pub max_dry_rounds: Option<u64>,
    pub add_submitters: Option<Vec<AddrText>>,
    pub remove_submitters: Option<Vec<AddrText>>,
}

/// A changed configuration and the record of what changed.
struct Change {
    config: Config,
    changed: Vec<Attribute>,
}

/// A changed configuration and the record of what changed, as specifications see
/// them.
#[verifier::ext_equal]
pub struct ChangeView {
    pub config: ConfigView,
    pub changed: Seq<AttributeView>,
}

impl View for Change {
    type V = ChangeView;

    closed spec fn view(&self) -> ChangeView {
        ChangeView { config: self.config@, changed: attributes_view(self.changed@) }
    }
}

impl ChangeView {
    /// The change with another configuration and one more line of its record.
    pub open spec fn noting(
        self,
        config: ConfigView,
        key: Seq<char>,
        value: Seq<char>,
    ) -> ChangeView {
        ChangeView { config, changed: self.changed.push(Attribute { key, value }) }
    }
}

/// The change to another admin.
pub open spec fn admin_changed(c: ChangeView, admin: Option<AddrView>) -> Result<
    ChangeView,
    ErrorView,
> {
    match admin {
        None => Ok(c),
        Some(name) => match name.verdict {
            Err(reason) => Err(ContractError::Std(reason)),
            Ok(address) => Ok(
                c.noting(ConfigView { admin: address, ..c.config }, "admin"@, address),
            ),
        },
    }
}

fn change_admin(change: Change, admin: Option<AddrText>) -> (result: Result<Change, ContractError>)
    ensures
        match admin_changed(change@, addr_option_view(admin)) {
            Err(e) => result matches Err(error) && error@ == e,
            Ok(c) => result matches Ok(r) && r@ == c,
        },
{
    let mut change = change;
    match admin {
        None => {},
        Some(name) => match name.verdict {
            Err(reason) => return Err(ContractError::Std(reason)),
            Ok(address) => {
                add_attribute(&mut change.changed, "admin", address.clone());
                change.config.admin = address;
            },
        },
    }
    Ok(change)
}

/// The change to another ticket price.
pub open spec fn price_changed(c: ChangeView, price: Option<CoinView>) -> Result<
    ChangeView,
    ErrorView,
> {
    match price {
        None => Ok(c),
        Some(p) => match price_refusal(p, c.config.denom) {
            Some(e) => Err(e),
            None => Ok(
                c.noting(
                    ConfigView { ticket_price: p, ..c.config },
                    "ticket_price"@,
                    decimal(p.amount as nat),
                ),
            ),
        },
    }
}

/// An optional coin as specifications see it.
pub open spec fn coin_option_view(coin: Option<Coin>) -> Option<CoinView> {
    match coin {
        Some(c) => Some(c@),
        None => None,
    }
}

fn change_price(change: Change, price: Option<Coin>) -> (result: Result<Change, ContractError>)
    ensures
        match price_changed(change@, coin_option_view(price)) {
            Err(e) => result matches Err(error) && error@ == e,
            Ok(c) => result matches Ok(r) && r@ == c,
        },
{
    let mut change = change;
    match price {
        None => {},
        Some(p) => {
            match check_price(&p, &change.config.denom) {
                Ok(()) => {},
                Err(e) => return Err(e),
            }
            add_attribute(&mut change.changed, "ticket_price", decimal_text(p.amount));
            change.config.ticket_price = p;
        },
    }
    Ok(change)
}

/// The change to another draw interval.
pub open spec fn interval_changed(c: ChangeView, interval: Option<u64>) -> Result<
    ChangeView,
    ErrorView,
> {
    match interval {
        None => Ok(c),
        Some(d) => match interval_refusal(d) {
            Some(e) => Err(e),
            None => Ok(
                c.noting(
                    ConfigView { draw_interval: d, ..c.config },
                    "draw_interval"@,
                    decimal(d as nat),
                ),
            ),
        },
    }
}

fn change_interval(change: Change, interval: Option<u64>) -> (result: Result<Change, ContractError>)
    ensures
        match interval_changed(change@, interval) {
            Err(e) => result matches Err(error) && error@ == e,
            Ok(c) => result matches Ok(r) && r@ == c,
        },
{
    let mut change = change;
    match interval {
        None => {},
        Some(d) => {
            if d == 0 {
                return Err(ContractError::invalid_config("draw_interval must be non-zero"));
            }
            change.config.draw_interval = d;
            add_attribute(&mut change.changed, "draw_interval", decimal_text(d as u128));
        },
    }
    Ok(change)
}

/// The change to another split of the revenue.
pub open spec fn split_changed(c: ChangeView, split: Option<FundSplitBps>) -> Result<
    ChangeView,
    ErrorView,
> {
    match split {
        None => Ok(c),
        Some(p) => match p.refusal() {
            Some(e) => Err(ContractError::Shared(e)),
            None => {
                let config = ConfigView { split: p, ..c.config };
                Ok(
                    c.noting(config, "split_prize_bps"@, decimal(p.prize_bps as nat)).noting(
                        config,
                        "split_referral_bps"@,
                        decimal(p.referral_bps as nat),
                    ).noting(config, "split_treasury_bps"@, decimal(p.treasury_bps as nat)),
                )
            },
        },
    }
}

fn change_split(change: Change, split: Option<FundSplitBps>) -> (result: Result<
    Change,
    ContractError,
>)
    ensures
        match split_changed(change@, split) {
            Err(e) => result matches Err(error) && error@ == e,
            Ok(c) => result matches Ok(r) && r@ == c,
        },
{
    let mut change = change;
    match split {
        None => {},
        Some(p) => {
            match p.validate() {
                Ok(()) => {},
                Err(e) => return Err(ContractError::Shared(e)),
            }
            change.config.split = p;
            add_attribute(
                &mut change.changed,
                "split_prize_bps",
                decimal_text(p.prize_bps as u128),
            );
            add_attribute(
                &mut change.changed,
                "split_referral_bps",
                decimal_text(p.referral_bps as u128),
            );
            add_attribute(
                &mut change.changed,
                "split_treasury_bps",
                decimal_text(p.treasury_bps as u128),
            );
        },
    }
    Ok(change)
}

/// The change to another rule for the undistributed pool.
pub open spec fn rollover_changed(c: ChangeView, rollover: Option<bool>) -> ChangeView {
    match rollover {
        None => c,
        Some(yes) => c.noting(
            ConfigView { rollover_on_no_winner: yes, ..c.config },
            "rollover_on_no_winner"@,
            bool_word(yes),
        ),
    }
}

/// The change to another randomness mode.
pub open spec fn mode_changed(c: ChangeView, mode: Option<RandomnessMode>) -> ChangeView {
    match mode {
        None => c,
        Some(m) => c.noting(
            ConfigView { randomness_mode: m, ..c.config },
            "randomness_mode"@,
            m.word(),
        ),
    }
}

/// The change to another verification mode.
pub open spec fn verification_changed(c: ChangeView, mode: Option<VerifyMode>) -> ChangeView {
    match mode {
        None => c,
        Some(m) => c.noting(ConfigView { verify_mode: m, ..c.config }, "verify_mode"@, m.word()),
    }
}

/// The change to another drand key.
pub open spec fn pubkey_changed(c: ChangeView, key: Option<Seq<u8>>) -> ChangeView {
    match key {
        None => c,
        Some(k) => c.noting(
            ConfigView { drand_pubkey: k, ..c.config },
            "drand_pubkey"@,
            "updated"@,
        ),
    }
}

/// The change to another drand chain.
pub open spec fn chain_changed(c: ChangeView, hash: Option<Seq<char>>) -> ChangeView {
    match hash {
        None => c,
        Some(h) => c.noting(
            ConfigView { drand_chain_hash: h, ..c.config },
            "drand_chain_hash"@,
            "updated"@,
        ),
    }
}

/// The change to another start of the beacon's clock.
pub open spec fn genesis_changed(c: ChangeView, time: Option<u64>) -> ChangeView {
    match time {
        None => c,
        Some(t) => c.noting(
            ConfigView { drand_genesis_time: t, ..c.config },
            "drand_genesis_time"@,
            decimal(t as nat),
        ),
    }
}

/// The change to another period of the beacon's clock.
pub open spec fn period_changed(c: ChangeView, period: Option<u64>) -> ChangeView {
    match period {
        None => c,
        Some(p) => c.noting(
            ConfigView { drand_period: p, ..c.config },
            "drand_period"@,
            decimal(p as nat),
        ),
    }
}

/// The change to another time for reveals.
pub open spec fn timeout_changed(c: ChangeView, timeout: Option<u64>) -> ChangeView {
    match timeout {
        None => c,
        Some(t) => c.noting(
            ConfigView { reveal_timeout: t, ..c.config },
            "reveal_timeout"@,
            decimal(t as nat),
        ),
    }
}

/// The change of the recorded setting for code registration.
pub open spec fn registration_changed(c: ChangeView, open: Option<bool>) -> ChangeView {
    match open {
        None => c,
        Some(yes) => c.noting(
            ConfigView { open_code_registration: yes, ..c.config },
            "open_code_registration"@,
            bool_word(yes),
        ),
    }
}

/// The change to another limit on dry rounds.
pub open spec fn limit_changed(c: ChangeView, limit: Option<u64>) -> ChangeView {
    match limit {
        None => c,
        Some(rounds) => c.noting(
            ConfigView { max_dry_rounds: rounds, ..c.config },
            "max_dry_rounds"@,
            decimal(rounds as nat),
        ),
    }
}

/// The change to another floor for claims of referrers.
pub open spec fn floor_changed(c: ChangeView, floor: Option<u128>) -> ChangeView {
    match floor {
        None => c,
        Some(f) => c.noting(
            ConfigView { min_claim_usaf: f, ..c.config },
            "min_claim_usaf"@,
            decimal(f as nat),
        ),
    }
}

fn change_randomness(
    change: Change,
    rollover: Option<bool>,
    mode: Option<RandomnessMode>,
    verification: Option<VerifyMode>,
) -> (result: Change)
    ensures
        result@ == verification_changed(
            mode_changed(rollover_changed(change@, rollover), mode),
            verification,
        ),
{
    let mut change = change;
    match rollover {
        None => {},
        Some(yes) => {
            change.config.rollover_on_no_winner = yes;
            add_attribute(&mut change.changed, "rollover_on_no_winner", bool_text(yes));
        },
    }
    match mode {
        None => {},
        Some(m) => {
            add_attribute(&mut change.changed, "randomness_mode", m.as_str().to_owned());
            change.config.randomness_mode = m;
        },
    }
    match verification {
        None => {},
        Some(m) => {
            change.config.verify_mode = m;
            add_attribute(&mut change.changed, "verify_mode", verify_mode_str(&m).to_owned());
        },
    }
    change
}

fn change_beacon(
    change: Change,
    key: Option<Vec<u8>>,
    hash: Option<String>,
    genesis: Option<u64>,
    period: Option<u64>,
) -> (result: Change)
    ensures
        result@ == period_changed(
            genesis_changed(
                chain_changed(pubkey_changed(change@, bytes_view(key)), text_view(hash)),
                genesis,
            ),
            period,
        ),
{
    let mut change = change;
    match key {
        None => {},
        Some(k) => {
            change.config.drand_pubkey = k;
            add_attribute(&mut change.changed, "drand_pubkey", "updated".to_owned());
        },
    }
    match hash {
        None => {},
        Some(h) => {
            change.config.drand_chain_hash = h;
            add_attribute(&mut change.changed, "drand_chain_hash", "updated".to_owned());
        },
    }
    match genesis {
        None => {},
        Some(t) => {
            change.config.drand_genesis_time = t;
            add_attribute(&mut change.changed, "drand_genesis_time", decimal_text(t as u128));
        },
    }
    match period {
        None => {},
        Some(p) => {
            change.config.drand_period = p;
            add_attribute(&mut change.changed, "drand_period", decimal_text(p as u128));
        },
    }
    change
}

fn change_limits(
    change: Change,
    floor: Option<u128>,
    timeout: Option<u64>,
    open: Option<bool>,
    limit: Option<u64>,
) -> (result: Change)
    ensures
        result@ == limit_changed(
            registration_changed(timeout_changed(floor_changed(change@, floor), timeout), open),
            limit,
        ),
{
    let mut change = change;
    match floor {
        None => {},
        Some(f) => {
            change.config.min_claim_usaf = f;
            add_attribute(&mut change.changed, "min_claim_usaf", decimal_text(f));
        },
    }
    match timeout {
        None => {},
        Some(t) => {
            change.config.reveal_timeout = t;
            add_attribute(&mut change.changed, "reveal_timeout", decimal_text(t as u128));
        },
    }
    match open {
        None => {},
        Some(yes) => {
            change.config.open_code_registration = yes;
            add_attribute(&mut change.changed, "open_code_registration", bool_text(yes));
        },
    }
    match limit {
        None => {},
        Some(rounds) => {
            change.config.max_dry_rounds = rounds;
            add_attribute(&mut change.changed, "max_dry_rounds", decimal_text(rounds as u128));
        },
    }
    change
}

/// A list of submitters and the record of what changed.
pub struct Roster {
    pub submitters: Seq<Seq<char>>,
    pub changed: Seq<AttributeView>,
}

/// The roster after some names have been added, each address once; a name that the
/// host objects to stops everything.
pub open spec fn roster_extended(start: Roster, names: Seq<AddrView>) -> Result<Roster, ErrorView>
    decreases names.len(),
{
    if names.len() == 0 {
        Ok(start)
    } else {
        match roster_extended(start, names.drop_last()) {
            Err(e) => Err(e),
            Ok(r) => match names.last().verdict {
                Err(reason) => Err(ContractError::Std(reason)),
                Ok(address) => Ok(
                    if r.submitters.contains(address) {
                        r
                    } else {
                        Roster {
                            submitters: r.submitters.push(address),
                            changed: r.changed.push(
                                Attribute { key: "add_submitter"@, value: address },
                            ),
                        }
                    },
                ),
            },
        }
    }
}

/// A list without some text.
pub open spec fn without(list: Seq<Seq<char>>, text: Seq<char>) -> Seq<Seq<char>>
    decreases list.len(),
{
    if list.len() == 0 {
        Seq::empty()
    } else if list.last() == text {
        without(list.drop_last(), text)
    } else {
        without(list.drop_last(), text).push(list.last())
    }
}

/// The roster after some names have been removed; a name that the host objects to
/// stops everything.
pub open spec fn roster_reduced(start: Roster, names: Seq<AddrView>) -> Result<Roster, ErrorView>
    decreases names.len(),
{
    if names.len() == 0 {
        Ok(start)
    } else {
        match roster_reduced(start, names.drop_last()) {
            Err(e) => Err(e),
            Ok(r) => match names.last().verdict {
                Err(reason) => Err(ContractError::Std(reason)),
                Ok(address) => Ok(
                    Roster {
                        submitters: without(r.submitters, address),
                        changed: r.changed.push(
                            Attribute { key: "remove_submitter"@, value: address },
                        ),
                    },
                ),
            },
        }
    }
}

pub proof fn lemma_extension_failure(start: Roster, names: Seq<AddrView>, n: int)
    requires
        0 <= n <= names.len(),
        roster_extended(start, names.take(n)) is Err,
    ensures
        roster_extended(start, names) == roster_extended(start, names.take(n)),
    decreases names.len() - n,
{
    if n == names.len() {
        assert(names.take(n) =~= names);
    } else {
        assert(names.take(n + 1).drop_last() =~= names.take(n));
        lemma_extension_failure(start, names, n + 1);
    }
}

pub proof fn lemma_reduction_failure(start: Roster, names: Seq<AddrView>, n: int)
    requires
        0 <= n <= names.len(),
        roster_reduced(start, names.take(n)) is Err,
    ensures
        roster_reduced(start, names) == roster_reduced(start, names.take(n)),
    decreases names.len() - n,
{
    if n == names.len() {
        assert(names.take(n) =~= names);
    } else {
        assert(names.take(n + 1).drop_last() =~= names.take(n));
        lemma_reduction_failure(start, names, n + 1);
    }
}

/// The roster of a change.
pub open spec fn roster(c: ChangeView) -> Roster {
    Roster { submitters: c.config.authorized_submitters, changed: c.changed }
}

/// The change with another roster.
pub open spec fn with_roster(c: ChangeView, r: Roster) -> ChangeView {
    ChangeView {
        config: ConfigView { authorized_submitters: r.submitters, ..c.config },
        changed: r.changed,
    }
}

/// Optional account names as specifications see them.
pub open spec fn names_view(names: Option<Vec<AddrText>>) -> Option<Seq<AddrView>> {
    match names {
        Some(n) => Some(addrs_view(n@)),
        None => None,
    }
}

/// The change that adds submitters.
pub open spec fn submitters_added(c: ChangeView, names: Option<Seq<AddrView>>) -> Result<
    ChangeView,
    ErrorView,
> {
    match names {
        None => Ok(c),
        Some(n) => match roster_extended(roster(c), n) {
            Err(e) => Err(e),
            Ok(r) => Ok(with_roster(c, r)),
        },
    }
}

/// The change that removes submitters.
pub open spec fn submitters_removed(c: ChangeView, names: Option<Seq<AddrView>>) -> Result<
    ChangeView,
    ErrorView,
> {
    match names {
        None => Ok(c),
        Some(n) => match roster_reduced(roster(c), n) {
            Err(e) => Err(e),
            Ok(r) => Ok(with_roster(c, r)),
        },
    }
}

fn add_submitters(change: Change, names: Option<Vec<AddrText>>) -> (result: Result<
    Change,
    ContractError,
>)
    ensures
        match submitters_added(change@, names_view(names)) {
            Err(e) => result matches Err(error) && error@ == e,
            Ok(c) => result matches Ok(r) && r@ == c,
        },
{
    let ghost start = roster(change@);
    let ghost config = change.config@;
    let list: Vec<AddrText> = match names {
        None => return Ok(change),
        Some(list) => list,
    };
    let mut out = change;
    let ghost shown = addrs_view(list@);
    let mut i: usize = 0;
    assert(shown.take(0) =~= Seq::<AddrView>::empty());
    while i < list.len()
        invariant
            i <= list.len(),
            names_view(names) == Some(shown),
            start == roster(change@),
            config == change@.config,
            shown == addrs_view(list@),
            roster_extended(start, shown.take(i as int)) == Ok::<Roster, ErrorView>(
                roster(out@),
            ),
            out.config@ == (ConfigView {
                authorized_submitters: out.config@.authorized_submitters,
                ..config
            }),
        decreases list.len() - i,
    {
        proof {
            assert(shown.take(i + 1).drop_last() =~= shown.take(i as int));
            assert(shown.take(i + 1).last() == list@[i as int]@);
        }
        match &list[i].verdict {
            Err(reason) => {
                proof {
                    lemma_extension_failure(start, shown, i + 1);
                }
                return Err(ContractError::Std(reason.clone()));
            },
            Ok(address) => {
                if !has_text(&out.config.authorized_submitters, address) {
                    let ghost before = out@;
                    out.config.authorized_submitters.push(address.clone());
                    add_attribute(&mut out.changed, "add_submitter", address.clone());
                    assert(out@.config.authorized_submitters
                        =~= before.config.authorized_submitters.push(address@));
                }
            },
        }
        i = i + 1;
    }
    assert(shown.take(i as int) =~= shown);
    Ok(out)
}

/// Removes some text from a list.
fn remove_text(list: &Vec<String>, text: &String) -> (rest: Vec<String>)
    ensures
        texts(rest@) == without(texts(list@), text@),
{
    let ghost all = texts(list@);
    let mut rest: Vec<String> = Vec::new();
    let mut i: usize = 0;
    assert(all.take(0) =~= Seq::<Seq<char>>::empty());
    assert(texts(rest@) =~= Seq::<Seq<char>>::empty());
    while i < list.len()
        invariant
            i <= list.len(),
            all == texts(list@),
            texts(rest@) == without(all.take(i as int), text@),
        decreases list.len() - i,
    {
        proof {
            assert(all.take(i + 1).drop_last() =~= all.take(i as int));
            assert(all.take(i + 1).last() == list@[i as int]@);
        }
        if list[i] != *text {
            let ghost before = texts(rest@);
            rest.push(list[i].clone());
            assert(texts(rest@) =~= before.push(list@[i as int]@));
        }
        i = i + 1;
    }
    assert(all.take(i as int) =~= all);
    rest
}

fn remove_submitters(change: Change, names: Option<Vec<AddrText>>) -> (result: Result<
    Change,
    ContractError,
>)
    ensures
        match submitters_removed(change@, names_view(names)) {
            Err(e) => result matches Err(error) && error@ == e,
            Ok(c) => result matches Ok(r) && r@ == c,
        },
{
    let ghost start = roster(change@);
    let ghost config = change.config@;
    let list: Vec<AddrText> = match names {
        None => return Ok(change),
        Some(list) => list,
    };
    let mut out = change;
    let ghost shown = addrs_view(list@);
    let mut i: usize = 0;
    assert(shown.take(0) =~= Seq::<AddrView>::empty());
    while i < list.len()
        invariant
            i <= list.len(),
            names_view(names) == Some(shown),
            start == roster(change@),
            config == change@.config,
            shown == addrs_view(list@),
            roster_reduced(start, shown.take(i as int)) == Ok::<Roster, ErrorView>(
                roster(out@),
            ),
            out.config@ == (ConfigView {
                authorized_submitters: out.config@.authorized_submitters,
                ..config
            }),
        decreases list.len() - i,
    {
        proof {
            assert(shown.take(i + 1).drop_last() =~= shown.take(i as int));
            assert(shown.take(i + 1).last() == list@[i as int]@);
        }
        match &list[i].verdict {
            Err(reason) => {
                proof {
                    lemma_reduction_failure(start, shown, i + 1);
                }
                return Err(ContractError::Std(reason.clone()));
            },
            Ok(address) => {
                let rest = remove_text(&out.config.authorized_submitters, address);
                out.config.authorized_submitters = rest;
                add_attribute(&mut out.changed, "remove_submitter", address.clone());
            },
        }
        i = i + 1;
    }
    assert(shown.take(i as int) =~= shown);
    Ok(out)
}

/// The changed configuration before its beacon's clock is put in order and its
/// randomness part is checked: the requests are taken in order, and the first one
/// that is refused decides.
pub open spec fn changed(config: ConfigView, args: SetConfigArgs) -> Result<ChangeView, ErrorView> {
    let start = ChangeView { config, changed: Seq::empty() };
    match admin_changed(start, addr_option_view(args.admin)) {
        Err(e) => Err(e),
        Ok(a) => match price_changed(a, coin_option_view(args.ticket_price)) {
            Err(e) => Err(e),
            Ok(b) => match interval_changed(b, args.draw_interval) {
                Err(e) => Err(e),
                Ok(c) => match split_changed(c, args.split) {
                    Err(e) => Err(e),
                    Ok(d) => match submitters_added(
                        switches_changed(d, args),
                        names_view(args.add_submitters),
                    ) {
                        Err(e) => Err(e),
                        Ok(f) => submitters_removed(f, names_view(args.remove_submitters)),
                    },
                },
            },
        },
    }
}

/// The changes that are never refused by themselves.
pub open spec fn switches_changed(c: ChangeView, args: SetConfigArgs) -> ChangeView {
    limits_changed(beacon_changed(modes_changed(c, args), args), args)
}

/// The changes of the modes.
pub open spec fn modes_changed(c: ChangeView, args: SetConfigArgs) -> ChangeView {
    verification_changed(
        mode_changed(rollover_changed(c, args.rollover_on_no_winner), args.randomness_mode),
        args.verify_mode,
    )
}

/// The changes of the beacon.
pub open spec fn beacon_changed(c: ChangeView, args: SetConfigArgs) -> ChangeView {
    period_changed(
        genesis_changed(
            chain_changed(
                pubkey_changed(c, bytes_view(args.drand_pubkey)),
                text_view(args.drand_chain_hash),
            ),
            args.drand_genesis_time,
        ),
        args.drand_period,
    )
}

/// The changes of limits and recorded settings.
pub open spec fn limits_changed(c: ChangeView, args: SetConfigArgs) -> ChangeView {
    limit_changed(
        registration_changed(
            timeout_changed(floor_changed(c, args.min_claim_usaf), args.reveal_timeout),
            args.open_code_registration,
        ),
        args.max_dry_rounds,
    )
}

/// What a change of the configuration leads to.
pub open spec fn set_config_outcome(
    s: StateView,
    sender: Seq<char>,
    args: SetConfigArgs,
) -> Outcome {
    if sender != s.config.admin {
        Err(not_admin())
    } else {
        match changed(s.config, args) {
            Err(e) => Err(e),
            Ok(c) => match randomness_config_refusal(c.config) {
                Some(e) => Err(e),
                None => Ok(
                    (
                        StateView { config: with_beacon_clock(c.config), ..s },
                        ResponseView::recording(
                            EventView { ty: "winsaf/set_config"@, attributes: c.changed },
                        ),
                    ),
                ),
            },
        }
    }
}

fn change_config(config: &Config, args: SetConfigArgs) -> (result: Result<Change, ContractError>)
    ensures
        match changed(config@, args) {
            Err(e) => result matches Err(error) && error@ == e,
            Ok(c) => result matches Ok(r) && r@ == c,
        },
{
    let start = Change { config: config.copy(), changed: Vec::new() };
    assert(start@ =~= (ChangeView { config: config@, changed: Seq::empty() }));
    let a = match change_admin(start, args.admin) {
        Ok(change) => change,
        Err(e) => return Err(e),
    };
    let b = match change_price(a, args.ticket_price) {
        Ok(change) => change,
        Err(e) => return Err(e),
    };
    let c = match change_interval(b, args.draw_interval) {
        Ok(change) => change,
        Err(e) => return Err(e),
    };
    let d = match change_split(c, args.split) {
        Ok(change) => change,
        Err(e) => return Err(e),
    };
    let switched = change_limits(
        change_beacon(
            change_randomness(
                d,
                args.rollover_on_no_winner,
                args.randomness_mode,
                args.verify_mode,
            ),
            args.drand_pubkey,
            args.drand_chain_hash,
            args.drand_genesis_time,
            args.drand_period,
        ),
        args.min_claim_usaf,
        args.reveal_timeout,
        args.open_code_registration,
        args.max_dry_rounds,
    );
    match add_submitters(switched, args.add_submitters) {
        Ok(change) => remove_submitters(change, args.remove_submitters),
        Err(e) => Err(e),
    }
}

/// Whether a configuration has the denomination, the number domain and the pause of
/// another.
pub open spec fn same_frame(a: ConfigView, b: ConfigView) -> bool {
    &&& a.numbers_per_ticket == b.numbers_per_ticket
    &&& a.number_max == b.number_max
    &&& a.denom == b.denom
    &&& a.paused == b.paused
}

/// Whether a configuration has that frame of another, and sells the same.
pub open spec fn same_game(a: ConfigView, b: ConfigView) -> bool {
    &&& same_frame(a, b)
    &&& a.ticket_price == b.ticket_price
    &&& a.draw_interval == b.draw_interval
    &&& a.split == b.split
}

proof fn lemma_modes_keep_game(c: ChangeView, args: SetConfigArgs)
    ensures
        same_game(modes_changed(c, args).config, c.config),
{
    let a = rollover_changed(c, args.rollover_on_no_winner);
    assert(same_game(a.config, c.config));
    let b = mode_changed(a, args.randomness_mode);
    assert(same_game(b.config, c.config));
}

proof fn lemma_beacon_keeps_game(c: ChangeView, args: SetConfigArgs)
    ensures
        same_game(beacon_changed(c, args).config, c.config),
{
    let a = pubkey_changed(c, bytes_view(args.drand_pubkey));
    assert(same_game(a.config, c.config));
    let b = chain_changed(a, text_view(args.drand_chain_hash));
    assert(same_game(b.config, c.config));
    let d = genesis_changed(b, args.drand_genesis_time);
    assert(same_game(d.config, c.config));
}

proof fn lemma_limits_keep_game(c: ChangeView, args: SetConfigArgs)
    ensures
        same_game(limits_changed(c, args).config, c.config),
{
    let a = floor_changed(c, args.min_claim_usaf);
    assert(same_game(a.config, c.config));
    let b = timeout_changed(a, args.reveal_timeout);
    assert(same_game(b.config, c.config));
    let d = registration_changed(b, args.open_code_registration);
    assert(same_game(d.config, c.config));
}

/// The changes that are never refused touch neither that frame nor what is sold.
pub proof fn lemma_switches_keep_game(c: ChangeView, args: SetConfigArgs)
    ensures
        same_game(switches_changed(c, args).config, c.config),
{
    let a = modes_changed(c, args);
    lemma_modes_keep_game(c, args);
    let b = beacon_changed(a, args);
    lemma_beacon_keeps_game(a, args);
    lemma_limits_keep_game(b, args);
}

/// A change leaves the denomination, the number domain and the pause as they are.
pub proof fn lemma_change_keeps(config: ConfigView, args: SetConfigArgs)
    ensures
        changed(config, args) matches Ok(c) ==> same_frame(c.config, config),
{
    if changed(config, args) is Ok {
        let start = ChangeView { config, changed: Seq::empty() };
        let a = admin_changed(start, addr_option_view(args.admin))->Ok_0;
        assert(same_frame(a.config, config));
        let b = price_changed(a, coin_option_view(args.ticket_price))->Ok_0;
        assert(same_frame(b.config, config));
        let c = interval_changed(b, args.draw_interval)->Ok_0;
        assert(same_frame(c.config, config));
        let d = split_changed(c, args.split)->Ok_0;
        assert(same_frame(d.config, config));
        lemma_switches_keep_game(d, args);
    }
}

/// Changes the configuration.
pub fn execute_set_config(
    state: &mut State,
    info: &MessageInfo,
    args: SetConfigArgs,
) -> (result: Result<Response, ContractError>)
    requires
        old(state).wf(),
    ensures
        final(state).wf(),
        conforms(
            old(state)@,
            final(state)@,
            result,
            set_config_outcome(old(state)@, info@.sender, args),
        ),
{
    if !state.config.is_admin(&info.sender) {
        return Err(ContractError::unauthorized("admin"));
    }
    let mut change = match change_config(&state.config, args) {
        Ok(change) => change,
        Err(e) => return Err(e),
    };
    match validate_randomness_config(&change.config) {
        Ok(()) => {},
        Err(e) => return Err(e),
    }
    proof {
        lemma_change_keeps(state@.config, args);
    }
    set_beacon_clock(&mut change.config);
    state.config = change.config;
    let event = Event { ty: "winsaf/set_config".to_owned(), attributes: change.changed };
    Ok(Response::recording(event))
}

} // verus!
