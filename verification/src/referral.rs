//! Referrals: codes, bindings and earnings.

use crate::admin::not_admin;
use crate::codes::{check_normal_code, normal_code_refusal, normalize_code, normalized};
use crate::error::{add_overflow, ContractError, ErrorView, OverflowError, OverflowOperation};
use crate::host::{addr_option_view, text_view, AddrText, AddrView, MessageInfo};
use crate::money::Coin;
use crate::outcome::{conforms, unless_refused, Outcome};
use crate::response::{Event, EventView, Response, ResponseView};
use crate::state::{ReferrerTotals, State, StateView};
use crate::table::lookup;
use crate::text::{decimal, decimal_text};
use vstd::prelude::*;

verus! {

/// One more, unless the counter is at its end.
pub open spec fn count_up(n: u64) -> u64 {
    if n < u64::MAX {
        (n + 1) as u64
    } else {
        u64::MAX
    }
}

/// The state in which a referee is bound to a referrer.
pub open spec fn bound(s: StateView, referee: Seq<char>, referrer: Seq<char>) -> StateView {
    let t = s.totals_of(referrer);
    StateView {
        referrer: s.referrer.insert(referee, referrer),
        totals: s.totals.insert(
            referrer,
            ReferrerTotals { referees: count_up(t.referees), ..t },
        ),
        ..s
    }
}

/// Binds a referee to a referrer and counts it.
pub fn bind_referrer(state: &mut State, referee: &String, referrer: &String)
    requires
        old(state).wf(),
    ensures
        final(state).wf(),
        final(state)@ == bound(old(state)@, referee@, referrer@),
{
    let mut totals = state.referrer_totals(referrer);
    totals.referees = totals.referees.saturating_add(1);
    state.referrer.set(referee, referrer.clone());
    state.totals.set(referrer, totals);
}

/// Why an amount cannot be credited to a referrer.
pub open spec fn credit_refusal(s: StateView, referrer: Seq<char>, amount: nat) -> Option<
    ErrorView,
> {
    if s.earned(referrer) + amount > u128::MAX {
        Some(ContractError::Overflow(add_overflow()))
    } else if s.totals_of(referrer).lifetime_earned + amount > u128::MAX {
        Some(ContractError::Overflow(add_overflow()))
    } else {
        None
    }
}

/// The state in which an amount is credited to a referrer.
pub open spec fn credited(s: StateView, referrer: Seq<char>, amount: nat) -> StateView {
    let t = s.totals_of(referrer);
    StateView {
        earnings: s.earnings.insert(referrer, (s.earned(referrer) + amount) as u128),
        totals: s.totals.insert(
            referrer,
            ReferrerTotals { lifetime_earned: (t.lifetime_earned + amount) as u128, ..t },
        ),
        ..s
    }
}

/// Credits an amount to a referrer's earnings and lifetime total. Where it does
/// not fit, nothing changes.
pub fn credit_referral(state: &mut State, referrer: &String, amount: u128) -> (result: Result<
    (),
    ContractError,
>)
    requires
        old(state).wf(),
    ensures
        final(state).wf(),
        match credit_refusal(old(state)@, referrer@, amount as nat) {
            Some(e) => final(state)@ == old(state)@ && (result matches Err(error) && error@ == e),
            None => result is Ok && final(state)@ == credited(
                old(state)@,
                referrer@,
                amount as nat,
            ),
        },
{
    let earned: u128 = match state.earned_by(referrer).checked_add(amount) {
        Some(sum) => sum,
        None => return Err(
            ContractError::Overflow(OverflowError { operation: OverflowOperation::Add }),
        ),
    };
    let mut totals = state.referrer_totals(referrer);
    totals.lifetime_earned = match totals.lifetime_earned.checked_add(amount) {
        Some(sum) => sum,
        None => return Err(
            ContractError::Overflow(OverflowError { operation: OverflowOperation::Add }),
        ),
    };
    state.earnings.set(referrer, earned);
    state.totals.set(referrer, totals);
    Ok(())
}

/// Whose a code in its normal form is.
pub open spec fn code_owner(s: StateView, code: Option<Seq<char>>) -> Option<Seq<char>> {
    match code {
        Some(c) => lookup(s.codes, c),
        None => None,
    }
}

/// Whom a purchase credits: the referrer that the buyer is bound to, otherwise the
/// owner of the code (in its normal form) unless that is the buyer.
pub open spec fn buyer_referrer(s: StateView, buyer: Seq<char>, code: Option<Seq<char>>) -> Option<
    Seq<char>,
> {
    match lookup(s.referrer, buyer) {
        Some(existing) => Some(existing),
        None => match code_owner(s, code) {
            Some(owner) => if owner == buyer {
                None
            } else {
                Some(owner)
            },
            None => None,
        },
    }
}

/// Finds whom a purchase credits; the code is in its normal form.
pub fn resolve_buyer_referrer(
    state: &State,
    buyer: &String,
    code: &Option<String>,
) -> (referrer: Option<String>)
    requires
        state.wf(),
    ensures
        text_view(referrer) == buyer_referrer(state@, buyer@, text_view(*code)),
{
    match state.referrer.get(buyer) {
        Some(existing) => return Some(existing.clone()),
        None => {},
    }
    match code {
        Some(c) => match state.codes.get(c) {
            Some(owner) => if *owner == *buyer {
                None
            } else {
                Some(owner.clone())
            },
            None => None,
        },
        None => None,
    }
}

/// Whom a binding request names; the code is given as sent and in its normal form.
pub open spec fn requested_referrer(
    s: StateView,
    referrer: Option<AddrView>,
    code: Option<Seq<char>>,
    normal: Option<Seq<char>>,
) -> Result<Seq<char>, ErrorView> {
    match referrer {
        Some(name) => match name.verdict {
            Ok(address) => Ok(address),
            Err(reason) => Err(ContractError::Std(reason)),
        },
        None => match code {
            Some(c) => match code_owner(s, normal) {
                Some(owner) => Ok(owner),
                None => Err(ContractError::UnknownReferralCode { code: c }),
            },
            None => Err(
                ContractError::InvalidConfig { reason: "provide either `referrer` or `code`"@ },
            ),
        },
    }
}

/// Why a binding request is refused.
pub open spec fn bind_refusal(
    s: StateView,
    referee: Seq<char>,
    referrer: Option<AddrView>,
    code: Option<Seq<char>>,
    normal: Option<Seq<char>>,
) -> Option<ErrorView> {
    if s.referrer.dom().contains(referee) {
        Some(ContractError::AlreadyBound { referee })
    } else {
        match requested_referrer(s, referrer, code, normal) {
            Err(e) => Some(e),
            Ok(r) => if r == referee {
                Some(ContractError::SelfReferral)
            } else {
                None
            },
        }
    }
}

/// What a binding request leads to.
pub open spec fn bind_outcome(
    s: StateView,
    referee: Seq<char>,
    referrer: Option<AddrView>,
    code: Option<Seq<char>>,
    normal: Option<Seq<char>>,
) -> Outcome {
    let r = requested_referrer(s, referrer, code, normal)->Ok_0;
    unless_refused(
        bind_refusal(s, referee, referrer, code, normal),
        bound(s, referee, r),
        ResponseView::recording(
            EventView::named("winsaf/bind_referrer"@).attr("referee"@, referee).attr(
                "referrer"@,
                r,
            ),
        ),
    )
}

/// Binds the sender to a referrer, named by address or by a code that is given as
/// sent and in its normal form.
pub fn bind_by_normal_code(
    state: &mut State,
    info: &MessageInfo,
    referrer: Option<AddrText>,
    code: Option<String>,
    normal: Option<String>,
) -> (result: Result<Response, ContractError>)
    requires
        old(state).wf(),
    ensures
        final(state).wf(),
        conforms(
            old(state)@,
            final(state)@,
            result,
            bind_outcome(
                old(state)@,
                info@.sender,
                addr_option_view(referrer),
                text_view(code),
                text_view(normal),
            ),
        ),
{
    let referee = &info.sender;
    if state.referrer.get(referee).is_some() {
        return Err(ContractError::AlreadyBound { referee: referee.clone() });
    }
    let referrer: String = match referrer {
        Some(name) => match name.verdict {
            Ok(address) => address,
            Err(reason) => return Err(ContractError::Std(reason)),
        },
        None => match (code, normal) {
            (Some(c), Some(n)) => match state.codes.get(&n) {
                Some(owner) => owner.clone(),
                None => return Err(ContractError::UnknownReferralCode { code: c }),
            },
            (Some(c), None) => return Err(ContractError::UnknownReferralCode { code: c }),
            (None, _) => return Err(
                ContractError::invalid_config("provide either `referrer` or `code`"),
            ),
        },
    };
    if referrer == *referee {
        return Err(ContractError::SelfReferral);
    }
    bind_referrer(state, referee, &referrer);
    let event = Event::new("winsaf/bind_referrer").attr("referee", referee.clone()).attr(
        "referrer",
        referrer,
    );
    Ok(Response::recording(event))
}

/// An optional code in its normal form.
pub open spec fn normal_form(code: Option<Seq<char>>) -> Option<Seq<char>> {
    match code {
        Some(c) => Some(normalized(c)),
        None => None,
    }
}

/// Brings an optional code into its normal form.
pub fn normalize_option(code: &Option<String>) -> (normal: Option<String>)
    ensures
        text_view(normal) == normal_form(text_view(*code)),
{
    match code {
        Some(c) => Some(normalize_code(c.as_str())),
        None => None,
    }
}

/// Binds the sender to a referrer, once and for all.
pub fn execute_bind_referrer(
    state: &mut State,
    info: &MessageInfo,
    referrer: Option<AddrText>,
    code: Option<String>,
) -> (result: Result<Response, ContractError>)
    requires
        old(state).wf(),
    ensures
        final(state).wf(),
        conforms(
            old(state)@,
            final(state)@,
            result,
            bind_outcome(
                old(state)@,
                info@.sender,
                addr_option_view(referrer),
                text_view(code),
                normal_form(text_view(code)),
            ),
        ),
{
    let normal = normalize_option(&code);
    bind_by_normal_code(state, info, referrer, code, normal)
}

/// Why a code in its normal form cannot be registered.
pub open spec fn register_refusal(s: StateView, sender: Seq<char>, normal: Seq<char>) -> Option<
    ErrorView,
> {
    if !s.config.open_code_registration && sender != s.config.admin {
        Some(not_admin())
    } else {
        match normal_code_refusal(normal) {
            Some(e) => Some(e),
            None => match lookup(s.codes, normal) {
                Some(owner) => if owner != sender {
                    Some(ContractError::Unauthorized { role: "code owner"@ })
                } else {
                    None
                },
                None => None,
            },
        }
    }
}

/// What registering a code in its normal form leads to.
pub open spec fn register_outcome(s: StateView, sender: Seq<char>, normal: Seq<char>) -> Outcome {
    unless_refused(
        register_refusal(s, sender, normal),
        StateView { codes: s.codes.insert(normal, sender), ..s },
        ResponseView::recording(
            EventView::named("winsaf/register_code"@).attr("code"@, normal).attr("owner"@, sender),
        ),
    )
}

/// Registers a code that is in its normal form. Unless registration is open, only the
/// admin may. Registering it again is harmless for its owner and refused to everyone
/// else.
pub fn register_normal_code(
    state: &mut State,
    info: &MessageInfo,
    normal: String,
) -> (result: Result<Response, ContractError>)
    requires
        old(state).wf(),
    ensures
        final(state).wf(),
        conforms(
            old(state)@,
            final(state)@,
            result,
            register_outcome(old(state)@, info@.sender, normal@),
        ),
{
    if !state.config.open_code_registration && !state.config.is_admin(&info.sender) {
        return Err(ContractError::unauthorized("admin"));
    }
    match check_normal_code(normal.as_str()) {
        Ok(()) => {},
        Err(e) => return Err(e),
    }
    match state.codes.get(&normal) {
        Some(owner) => if *owner != info.sender {
            return Err(ContractError::unauthorized("code owner"));
        },
        None => {},
    }
    state.codes.set(&normal, info.sender.clone());
    let event = Event::new("winsaf/register_code").attr("code", normal).attr(
        "owner",
        info.sender.clone(),
    );
    Ok(Response::recording(event))
}

/// Registers a referral code for the sender, who has to be the admin unless
/// registration is open.
pub fn execute_register_code(
    state: &mut State,
    info: &MessageInfo,
    code: String,
) -> (result: Result<Response, ContractError>)
    requires
        old(state).wf(),
    ensures
        final(state).wf(),
        conforms(
            old(state)@,
            final(state)@,
            result,
            register_outcome(old(state)@, info@.sender, normalized(code@)),
        ),
{
    let normal = normalize_code(code.as_str());
    register_normal_code(state, info, normal)
}

/// Why a referrer's claim is refused.
pub open spec fn claim_referral_refusal(s: StateView, claimant: Seq<char>) -> Option<ErrorView> {
    let pending = s.earned(claimant);
    if pending == 0 || pending < s.config.min_claim_usaf {
        Some(ContractError::NothingToClaim)
    } else if s.totals_of(claimant).lifetime_claimed + pending > u128::MAX {
        Some(ContractError::Overflow(add_overflow()))
    } else {
        None
    }
}

/// The state in which a referrer has been paid.
pub open spec fn referral_paid(s: StateView, claimant: Seq<char>) -> StateView {
    let t = s.totals_of(claimant);
    StateView {
        earnings: s.earnings.insert(claimant, 0),
        totals: s.totals.insert(
            claimant,
            ReferrerTotals {
                lifetime_claimed: (t.lifetime_claimed + s.earned(claimant)) as u128,
                ..t
            },
        ),
        ..s
    }
}

/// What a referrer's claim leads to.
pub open spec fn claim_referral_outcome(s: StateView, claimant: Seq<char>) -> Outcome {
    let pending = s.earned(claimant);
    unless_refused(
        claim_referral_refusal(s, claimant),
        referral_paid(s, claimant),
        ResponseView::paying(
            claimant,
            Coin { denom: s.config.denom, amount: pending },
            EventView::named("winsaf/claim_referral"@).attr("referrer"@, claimant).attr(
                "amount"@,
                decimal(pending as nat),
            ),
        ),
    )
}

/// Pays the sender everything that was earned by referrals.
pub fn execute_claim_referral(state: &mut State, info: &MessageInfo) -> (result: Result<
    Response,
    ContractError,
>)
    requires
        old(state).wf(),
    ensures
        final(state).wf(),
        conforms(
            old(state)@,
            final(state)@,
            result,
            claim_referral_outcome(old(state)@, info@.sender),
        ),
{
    let claimant = &info.sender;
    let pending: u128 = state.earned_by(claimant);
    if pending == 0 || pending < state.config.min_claim_usaf {
        return Err(ContractError::NothingToClaim);
    }
    let mut totals = state.referrer_totals(claimant);
    totals.lifetime_claimed = match totals.lifetime_claimed.checked_add(pending) {
        Some(sum) => sum,
        None => return Err(
            ContractError::Overflow(OverflowError { operation: OverflowOperation::Add }),
        ),
    };
    state.earnings.set(claimant, 0);
    state.totals.set(claimant, totals);
    let coin = Coin { denom: state.config.denom.clone(), amount: pending };
    let event = Event::new("winsaf/claim_referral").attr("referrer", claimant.clone()).attr(
        "amount",
        decimal_text(pending),
    );
    Ok(Response::paying(claimant.clone(), coin, event))
}

} // verus!
