//! What randomness is accepted for a round, mode by mode.

use crate::beacon::bytes_view;
use crate::contract::execute_outcome;
use crate::error::{ContractError, ErrorView};
use crate::host::{Env, InfoView};
use crate::msg::ExecuteMsg;
use crate::randomness::{asked_message, pairing_decides};
use crate::response::ResponseView;
use crate::round_terms::seconds_of;
use crate::seeds::{big_endian, law_number_can_be_read_back};
use crate::state::{
    LedgerView, RandomnessMode, RandomnessStatus, RequestView, StateView, VerifyMode,
};
use crate::status::RoundStatus;
use crate::text::{be_bytes, decimal};
use crate::verify::{sha256_digest, PairingAnswer};
use vstd::prelude::*;

verus! {

/// Whether someone may deliver randomness: the admin, and whoever is on the list.
pub open spec fn may_deliver(s: StateView, who: Seq<char>) -> bool {
    who == s.config.admin || exists|i: int|
        0 <= i < s.config.authorized_submitters.len()
            && #[trigger] s.config.authorized_submitters[i] == who
}

/// Why a round takes no randomness: it has not been closed, its randomness is there
/// already, or it has been given up.
pub open spec fn slot_objection(s: StateView, round_id: u64) -> Option<ErrorView> {
    let ledger = s.rounds[round_id - 1];
    if !(1 <= round_id <= s.rounds.len()) || ledger.randomness is None {
        Some(ContractError::RoundNotFound { round_id })
    } else if ledger.randomness->0.status == RandomnessStatus::Fulfilled {
        Some(ContractError::AlreadyFulfilled { round_id })
    } else if ledger.round.status != RoundStatus::Drawing {
        Some(
            ContractError::UnexpectedStatus {
                round_id,
                status: ledger.round.status.word(),
                expected: "drawing"@,
            },
        )
    } else {
        None
    }
}

/// Why drand randomness is refused: everything has its length, the randomness is the
/// digest of the signature, and in the BLS mode the host has to confirm the signature.
pub open spec fn beacon_objection(
    s: StateView,
    randomness: Seq<u8>,
    signature: Option<Vec<u8>>,
    pairing: PairingAnswer<Seq<char>>,
) -> Option<ErrorView> {
    let failed = |reason: Seq<char>| Some(ContractError::VerificationFailed { reason });
    let bls = s.config.verify_mode == VerifyMode::Bls;
    match signature {
        None => failed("drand mode requires a signature"@),
        Some(bytes) => if randomness.len() != 32 {
            Some(ContractError::InvalidRandomnessLength { actual: randomness.len() as usize })
        } else if bytes@.len() != 48 {
            failed("drand signature must be 48 bytes (G1), got "@ + decimal(bytes@.len()))
        } else if randomness != sha256_digest(bytes@) {
            failed("randomness != sha256(signature)"@)
        } else if bls && s.config.drand_pubkey.len() != 96 {
            Some(
                ContractError::InvalidPubkey {
                    reason: "drand group pubkey must be 96 bytes (G2)"@,
                },
            )
        } else if !bls {
            None
        } else {
            match pairing {
                PairingAnswer::Holds => None,
                PairingAnswer::HashFailed(text) => failed("hash_to_g1 failed: "@ + text),
                PairingAnswer::PairingFailed(text) => failed("pairing check errored: "@ + text),
                PairingAnswer::DoesNotHold => failed(
                    "BLS pairing check did not hold (bad signature/pubkey/round)"@,
                ),
            }
        },
    }
}

/// Whether one state differs from another in the randomness slot of a round alone.
pub open spec fn fills(
    next: StateView,
    s: StateView,
    round_id: u64,
    request: RequestView,
) -> bool {
    next == (StateView {
        rounds: s.rounds.update(
            round_id - 1,
            LedgerView { randomness: Some(request), ..s.rounds[round_id - 1] },
        ),
        ..s
    })
}

/// Which submitted randomness is accepted, and why other is refused: the first objection
/// that there is. What is accepted is kept as delivered, with its signature, and
/// nothing else changes.
pub proof fn law_submission_is_verified(
    s: StateView,
    env: Env,
    info: InfoView,
    round_id: u64,
    randomness: Vec<u8>,
    signature: Option<Vec<u8>>,
    pairing: PairingAnswer,
)
    ensures
        ({
            let outcome = execute_outcome(
                s,
                env,
                info,
                ExecuteMsg::SubmitRandomness { round_id, randomness, signature, pairing },
            );
            let objection = if !may_deliver(s, info.sender) {
                Some(ContractError::UnauthorizedSubmitter)
            } else if s.config.randomness_mode == RandomnessMode::CommitReveal {
                Some(ContractError::WrongMode { mode: "commit_reveal"@ })
            } else if slot_objection(s, round_id) is Some {
                slot_objection(s, round_id)
            } else if s.config.randomness_mode == RandomnessMode::Drand {
                beacon_objection(s, randomness@, signature, pairing@)
            } else if randomness@.len() != 32 {
                Some(
                    ContractError::InvalidRandomnessLength {
                        actual: randomness@.len() as usize,
                    },
                )
            } else {
                None
            };
            match objection {
                Some(e) => outcome == Err::<(StateView, ResponseView), ErrorView>(e),
                None => outcome matches Ok((next, response)) && response.messages.len() == 0
                    && fills(
                    next,
                    s,
                    round_id,
                    RequestView {
                        status: RandomnessStatus::Fulfilled,
                        randomness: Some(randomness@),
                        signature: bytes_view(signature),
                        ..s.rounds[round_id - 1].randomness->0
                    },
                ),
            }
        }),
{
    assert(s.config.authorized_submitters.contains(info.sender) <==> exists|i: int|
        0 <= i < s.config.authorized_submitters.len()
            && #[trigger] s.config.authorized_submitters[i] == info.sender);
}

/// Which commitments are accepted, and what is kept of one: the digest, who made it and
/// when, and by when its value has to be revealed.
pub proof fn law_commitment_is_kept(
    s: StateView,
    env: Env,
    info: InfoView,
    round_id: u64,
    commitment: Vec<u8>,
)
    ensures
        ({
            let outcome = execute_outcome(
                s,
                env,
                info,
                ExecuteMsg::CommitRandomness { round_id, commitment },
            );
            let deadline = seconds_of(env) + s.config.reveal_timeout;
            let objection = if s.config.randomness_mode == RandomnessMode::Drand {
                Some(ContractError::WrongMode { mode: "drand"@ })
            } else if s.config.randomness_mode == RandomnessMode::Mock {
                Some(ContractError::WrongMode { mode: "mock"@ })
            } else if !may_deliver(s, info.sender) {
                Some(ContractError::UnauthorizedSubmitter)
            } else if commitment@.len() != 32 {
                Some(
                    ContractError::VerificationFailed {
                        reason: "commitment hash must be 32 bytes (sha256)"@,
                    },
                )
            } else {
                slot_objection(s, round_id)
            };
            match objection {
                Some(e) => outcome == Err::<(StateView, ResponseView), ErrorView>(e),
                None => outcome matches Ok((next, response)) && response.messages.len() == 0
                    && fills(
                    next,
                    s,
                    round_id,
                    RequestView {
                        status: RandomnessStatus::Committed,
                        commitment: Some(commitment@),
                        committer: Some(info.sender),
                        commit_height: Some(env.height),
                        reveal_deadline: Some(
                            if deadline <= u64::MAX {
                                deadline as u64
                            } else {
                                u64::MAX
                            },
                        ),
                        ..s.rounds[round_id - 1].randomness->0
                    },
                ),
            }
        }),
{
    assert(s.config.authorized_submitters.contains(info.sender) <==> exists|i: int|
        0 <= i < s.config.authorized_submitters.len()
            && #[trigger] s.config.authorized_submitters[i] == info.sender);
}

/// Which reveals are accepted: those of whoever committed, of a value that hashes to the
/// commitment. The digest becomes the randomness of the round.
pub proof fn law_reveal_is_bound(
    s: StateView,
    env: Env,
    info: InfoView,
    round_id: u64,
    value: Vec<u8>,
)
    ensures
        ({
            let outcome = execute_outcome(
                s,
                env,
                info,
                ExecuteMsg::RevealRandomness { round_id, value },
            );
            let request = s.rounds[round_id - 1].randomness->0;
            let objection = if s.config.randomness_mode == RandomnessMode::Drand {
                Some(ContractError::WrongMode { mode: "drand"@ })
            } else if s.config.randomness_mode == RandomnessMode::Mock {
                Some(ContractError::WrongMode { mode: "mock"@ })
            } else if !may_deliver(s, info.sender) {
                Some(ContractError::UnauthorizedSubmitter)
            } else if slot_objection(s, round_id) is Some {
                slot_objection(s, round_id)
            } else if request.commitment is None {
                Some(ContractError::NoCommitment { round_id })
            } else if request.committer != Some(info.sender) {
                Some(ContractError::Unauthorized { role: "committer"@ })
            } else if request.commitment->0 != sha256_digest(value@) {
                Some(ContractError::RevealMismatch)
            } else {
                None
            };
            match objection {
                Some(e) => outcome == Err::<(StateView, ResponseView), ErrorView>(e),
                None => outcome matches Ok((next, response)) && response.messages.len() == 0
                    && fills(
                    next,
                    s,
                    round_id,
                    RequestView {
                        status: RandomnessStatus::Fulfilled,
                        randomness: Some(sha256_digest(value@)),
                        ..request
                    },
                ),
            }
        }),
{
    assert(s.config.authorized_submitters.contains(info.sender) <==> exists|i: int|
        0 <= i < s.config.authorized_submitters.len()
            && #[trigger] s.config.authorized_submitters[i] == info.sender);
}

/// The host is asked about a signature exactly when its answer decides: the randomness
/// would be accepted if the pairing held, and refused if it did not.
pub proof fn law_host_is_asked_when_it_decides(
    s: StateView,
    env: Env,
    info: InfoView,
    round_id: u64,
    randomness: Vec<u8>,
    signature: Option<Vec<u8>>,
)
    ensures
        pairing_decides(s, info.sender, round_id, randomness@, bytes_view(signature)) <==> {
            &&& execute_outcome(
                s,
                env,
                info,
                ExecuteMsg::SubmitRandomness {
                    round_id,
                    randomness,
                    signature,
                    pairing: PairingAnswer::Holds,
                },
            ) is Ok
            &&& execute_outcome(
                s,
                env,
                info,
                ExecuteMsg::SubmitRandomness {
                    round_id,
                    randomness,
                    signature,
                    pairing: PairingAnswer::DoesNotHold,
                },
            ) is Err
        },
{
}

/// The host is asked about the digest of the eight bytes that stand for the beacon round
/// that was fixed when the round was closed.
pub proof fn law_host_is_asked_about_the_beacon_round(s: StateView, round_id: u64) -> (bytes: Seq<
    u8,
>)
    requires
        1 <= round_id <= s.rounds.len(),
        s.rounds[round_id - 1].randomness is Some,
    ensures
        asked_message(s, round_id) == sha256_digest(bytes),
        bytes.len() == 8,
        big_endian(bytes) == s.rounds[round_id - 1].randomness->0.beacon_round,
{
    let beacon_round = s.rounds[round_id - 1].randomness->0.beacon_round;
    law_number_can_be_read_back(beacon_round);
    be_bytes(beacon_round)
}

} // verus!
