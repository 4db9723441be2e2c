//! What a referrer and a referee can rely on, request by request.

use crate::codes::{lowercased, trimmed};
use crate::contract::execute_outcome;
use crate::error::{ContractError, ErrorView, OverflowError, OverflowOperation};
use crate::host::{AddrText, Env, InfoView};
use crate::money::Coin;
use crate::msg::ExecuteMsg;
use crate::response::{ResponseView, SendView};
use crate::state::{ReferrerTotals, StateView};
use vstd::prelude::*;
use vstd::utf8::encode_utf8;

verus! {

/// What an account has earned by referrals and not claimed yet.
pub open spec fn pending_of(s: StateView, who: Seq<char>) -> nat {
    if s.earnings.dom().contains(who) {
        s.earnings[who] as nat
    } else {
        0
    }
}

/// The lifetime aggregates of an account; all zero for one that never referred.
pub open spec fn lifetime_of(s: StateView, who: Seq<char>) -> ReferrerTotals {
    if s.totals.dom().contains(who) {
        s.totals[who]
    } else {
        ReferrerTotals { referees: 0, lifetime_earned: 0, lifetime_claimed: 0 }
    }
}

/// Whether one state differs from another by a new binding alone: the referee has this
/// referrer, who has one referee more, and nothing else has changed.
pub open spec fn binds(
    next: StateView,
    s: StateView,
    referee: Seq<char>,
    referrer: Seq<char>,
) -> bool {
    let before = lifetime_of(s, referrer);
    let after = lifetime_of(next, referrer);
    &&& next == (StateView { referrer: next.referrer, totals: next.totals, ..s })
    &&& next.referrer.dom().contains(referee) && next.referrer[referee] == referrer
    &&& forall|who: Seq<char>|
        #![trigger next.referrer.dom().contains(who)]
        who != referee ==> (next.referrer.dom().contains(who) <==> s.referrer.dom().contains(who))
            && (s.referrer.dom().contains(who) ==> next.referrer[who] == s.referrer[who])
    &&& before.referees < u64::MAX ==> after.referees == before.referees + 1
    &&& before.referees == u64::MAX ==> after.referees == u64::MAX
    &&& after.lifetime_earned == before.lifetime_earned
    &&& after.lifetime_claimed == before.lifetime_claimed
    &&& forall|who: Seq<char>| who != referrer ==> lifetime_of(next, who) == lifetime_of(s, who)
}

/// A binding by code that is accepted binds the sender to the account for which the
/// code is registered, whatever else the state holds. It is refused only to senders
/// that are bound already, that own the code, or that name a code nobody has.
pub proof fn law_code_binds_to_its_owner(s: StateView, env: Env, info: InfoView, code: String)
    ensures
        ({
            let outcome = execute_outcome(
                s,
                env,
                info,
                ExecuteMsg::BindReferrer { referrer: None, code: Some(code) },
            );
            let key = lowercased(trimmed(code@));
            if s.referrer.dom().contains(info.sender) {
                outcome == Err::<(StateView, ResponseView), ErrorView>(
                    ContractError::AlreadyBound { referee: info.sender },
                )
            } else if !s.codes.dom().contains(key) {
                outcome == Err::<(StateView, ResponseView), ErrorView>(
                    ContractError::UnknownReferralCode { code: code@ },
                )
            } else if s.codes[key] == info.sender {
                outcome == Err::<(StateView, ResponseView), ErrorView>(ContractError::SelfReferral)
            } else {
                outcome matches Ok((next, response)) && binds(next, s, info.sender, s.codes[key])
                    && response.messages.len() == 0
            }
        }),
{
}

/// A binding by address that is accepted binds the sender to that address; a code that
/// comes with it does not matter.
pub proof fn law_address_binds_to_itself(
    s: StateView,
    env: Env,
    info: InfoView,
    referrer: AddrText,
    code: Option<String>,
)
    ensures
        ({
            let outcome = execute_outcome(
                s,
                env,
                info,
                ExecuteMsg::BindReferrer { referrer: Some(referrer), code },
            );
            if s.referrer.dom().contains(info.sender) {
                outcome == Err::<(StateView, ResponseView), ErrorView>(
                    ContractError::AlreadyBound { referee: info.sender },
                )
            } else {
                match referrer.verdict {
                    Err(reason) => outcome == Err::<(StateView, ResponseView), ErrorView>(
                        ContractError::Std(reason@),
                    ),
                    Ok(address) => if address@ == info.sender {
                        outcome == Err::<(StateView, ResponseView), ErrorView>(
                            ContractError::SelfReferral,
                        )
                    } else {
                        outcome matches Ok((next, response)) && binds(
                            next,
                            s,
                            info.sender,
                            address@,
                        ) && response.messages.len() == 0
                    },
                }
            }
        }),
{
}

/// A binding to nobody is refused.
pub proof fn law_binding_names_someone(s: StateView, env: Env, info: InfoView)
    ensures
        ({
            let outcome = execute_outcome(
                s,
                env,
                info,
                ExecuteMsg::BindReferrer { referrer: None, code: None },
            );
            outcome == Err::<(StateView, ResponseView), ErrorView>(
                if s.referrer.dom().contains(info.sender) {
                    ContractError::AlreadyBound { referee: info.sender }
                } else {
                    ContractError::InvalidConfig { reason: "provide either `referrer` or `code`"@ }
                },
            )
        }),
{
}

/// Whether text is a referral code: 1 to 32 characters of `[a-z0-9_-]`.
pub open spec fn is_code(text: Seq<char>) -> bool {
    &&& 1 <= text.len() <= 32
    &&& forall|i: int|
        0 <= i < text.len() ==> {
            let c = #[trigger] text[i];
            'a' <= c && c <= 'z' || '0' <= c && c <= '9' || c == '_' || c == '-'
        }
}

proof fn lemma_code_bytes(text: Seq<char>)
    requires
        forall|i: int| 0 <= i < text.len() ==> '\0' <= (#[trigger] text[i]) <= '\u{7f}',
    ensures
        encode_utf8(text).len() == text.len(),
{
    vstd::utf8::is_ascii_chars_encode_utf8(text);
}

/// A registration that is accepted gives the code, without white space around it and in
/// lower case, to the sender; only the admin can register codes unless registration
/// is open, only text that is a code can be registered, and a code that someone else
/// has cannot. Nothing else changes.
pub proof fn law_registration_gives_the_code(s: StateView, env: Env, info: InfoView, code: String)
    ensures
        ({
            let outcome = execute_outcome(s, env, info, ExecuteMsg::RegisterCode { code });
            let key = lowercased(trimmed(code@));
            if !s.config.open_code_registration && info.sender != s.config.admin {
                outcome == Err::<(StateView, ResponseView), ErrorView>(
                    ContractError::Unauthorized { role: "admin"@ },
                )
            } else if !is_code(key) {
                outcome == Err::<(StateView, ResponseView), ErrorView>(
                    ContractError::InvalidConfig {
                        reason: if key.len() == 0 || encode_utf8(key).len() > 32 {
                            "code length must be 1..=32"@
                        } else {
                            "code may only contain [a-z0-9_-]"@
                        },
                    },
                )
            } else if s.codes.dom().contains(key) && s.codes[key] != info.sender {
                outcome == Err::<(StateView, ResponseView), ErrorView>(
                    ContractError::Unauthorized { role: "code owner"@ },
                )
            } else {
                &&& outcome matches Ok((next, response)) && response.messages.len() == 0 && next
                    == (StateView { codes: next.codes, ..s }) && next.codes.dom().contains(key)
                    && next.codes[key] == info.sender
                &&& forall|other: Seq<char>|
                    #![trigger outcome->Ok_0.0.codes.dom().contains(other)]
                    other != key ==> {
                        let codes = outcome->Ok_0.0.codes;
                        &&& codes.dom().contains(other) <==> s.codes.dom().contains(other)
                        &&& s.codes.dom().contains(other) ==> codes[other] == s.codes[other]
                    }
            }
        }),
{
    let key = lowercased(trimmed(code@));
    if is_code(key) {
        assert forall|i: int| 0 <= i < key.len() implies '\0' <= (#[trigger] key[i])
            <= '\u{7f}' by {}
        lemma_code_bytes(key);
    }
    if crate::codes::normal_code_refusal(key) is None {
        assert forall|i: int| 0 <= i < key.len() implies '\0' <= (#[trigger] key[i])
            <= '\u{7f}' by {
            assert(crate::codes::normal_char(key[i]));
        }
        lemma_code_bytes(key);
        assert(is_code(key)) by {
            assert forall|i: int| 0 <= i < key.len() implies {
                let c = #[trigger] key[i];
                'a' <= c && c <= 'z' || '0' <= c && c <= '9' || c == '_' || c == '-'
            } by {
                assert(crate::codes::normal_char(key[i]));
            }
        }
    }
}

/// A referrer is paid everything that is pending, at once and in the contract's
/// denomination, if it is something and not below the floor. The lifetime claims grow
/// by as much, and nobody else's earnings are touched.
pub proof fn law_claim_pays_what_is_pending(s: StateView, env: Env, info: InfoView)
    requires
        pending_of(s, info.sender) + lifetime_of(s, info.sender).lifetime_claimed <= u128::MAX,
    ensures
        ({
            let outcome = execute_outcome(s, env, info, ExecuteMsg::ClaimReferral {  });
            let who = info.sender;
            let due = pending_of(s, who);
            let before = lifetime_of(s, who);
            if due == 0 || due < s.config.min_claim_usaf {
                outcome == Err::<(StateView, ResponseView), ErrorView>(
                    ContractError::NothingToClaim,
                )
            } else {
                &&& outcome matches Ok((next, response)) && response.messages == seq![
                    SendView {
                        to_address: who,
                        amount: seq![Coin { denom: s.config.denom, amount: due as u128 }],
                    },
                ] && next == (StateView { earnings: next.earnings, totals: next.totals, ..s })
                    && pending_of(next, who) == 0 && lifetime_of(next, who) == (ReferrerTotals {
                    lifetime_claimed: (before.lifetime_claimed + due) as u128,
                    ..before
                })
                &&& forall|other: Seq<char>|
                    other != who ==> #[trigger] pending_of(outcome->Ok_0.0, other) == pending_of(
                        s,
                        other,
                    ) && lifetime_of(outcome->Ok_0.0, other) == lifetime_of(s, other)
            }
        }),
{
}

/// A claim whose sum does not fit is refused.
pub proof fn law_claim_that_does_not_fit_is_refused(s: StateView, env: Env, info: InfoView)
    requires
        pending_of(s, info.sender) + lifetime_of(s, info.sender).lifetime_claimed > u128::MAX,
        pending_of(s, info.sender) >= s.config.min_claim_usaf,
    ensures
        execute_outcome(s, env, info, ExecuteMsg::ClaimReferral {  }) == Err::<
            (StateView, ResponseView),
            ErrorView,
        >(ContractError::Overflow(OverflowError { operation: OverflowOperation::Add })),
{
}

} // verus!
