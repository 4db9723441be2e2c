//! Delivery of a round's randomness: submitted at once, or committed and revealed.

use crate::beacon::bytes_view;
use crate::error::{ContractError, ErrorView};
use crate::host::{Env, MessageInfo};
use crate::outcome::{conforms, unless_refused, Outcome};
use crate::response::{Event, EventView, Response, ResponseView};
use crate::state::{
    in_place, rounds_view, LedgerView, RandomnessMode, RandomnessRequest, RandomnessStatus,
    RequestView, RoundLedger, State, StateView, VerifyMode,
};
use crate::status::{status_str, RoundStatus};
use crate::text::{be_bytes, copy_bytes, decimal, decimal_text, hex, hex_text};
use crate::verify::{
    check_drand, check_reveal, drand_refusal, mock_refusal, pairing_query, sha256, sha256_digest,
    verify_mock, PairingAnswer, PairingQuery, DRAND_DST, RANDOMNESS_LEN,
};
use vstd::prelude::*;

verus! {

/// Why a round takes no randomness: it has no slot for it, the slot is filled, or the
/// round no longer waits for it.
pub open spec fn pending_refusal(s: StateView, round_id: u64) -> Option<ErrorView> {
    if !s.has_round(round_id) || s.ledger(round_id).randomness is None {
        Some(ContractError::RoundNotFound { round_id })
    } else if s.ledger(round_id).randomness->0.status == RandomnessStatus::Fulfilled {
        Some(ContractError::AlreadyFulfilled { round_id })
    } else if s.ledger(round_id).round.status != RoundStatus::Drawing {
        Some(
            ContractError::UnexpectedStatus {
                round_id,
                status: s.ledger(round_id).round.status.word(),
                expected: RoundStatus::Drawing.word(),
            },
        )
    } else {
        None
    }
}

/// Finds the randomness slot of a round that waits for randomness; returns where the
/// round stands and a copy of its slot.
pub fn load_pending_randomness(state: &State, round_id: u64) -> (result: Result<
    (usize, RandomnessRequest),
    ContractError,
>)
    requires
        state.wf(),
    ensures
        match pending_refusal(state@, round_id) {
            Some(e) => result matches Err(error) && error@ == e,
            None => result matches Ok(found) && found.0 == round_id - 1 && found.0
                < state.rounds@.len() && state@.ledger(round_id).randomness == Some(found.1@),
        },
{
    let at: usize = match state.find_round(round_id) {
        Some(at) => at,
        None => return Err(ContractError::RoundNotFound { round_id }),
    };
    assert(state@.ledger(round_id) == state.rounds@[at as int]@);
    match &state.rounds[at].randomness {
        None => Err(ContractError::RoundNotFound { round_id }),
        Some(request) => {
            if matches!(request.status, RandomnessStatus::Fulfilled) {
                return Err(ContractError::AlreadyFulfilled { round_id });
            }
            let status = state.rounds[at].round.status;
            if status != RoundStatus::Drawing {
                return Err(
                    ContractError::UnexpectedStatus {
                        round_id,
                        status: status_str(&status),
                        expected: status_str(&RoundStatus::Drawing),
                    },
                );
            }
            Ok((at, request.copy()))
        },
    }
}

/// The state with another randomness slot for a round.
pub open spec fn with_request(s: StateView, round_id: u64, request: RequestView) -> StateView {
    s.with_ledger(round_id, LedgerView { randomness: Some(request), ..s.ledger(round_id) })
}

/// Replaces the randomness slot of a round.
fn store_request(state: &mut State, at: usize, round_id: u64, request: RandomnessRequest)
    requires
        old(state).wf(),
        at == round_id - 1,
        at < old(state).rounds@.len(),
    ensures
        final(state).wf(),
        final(state)@ == with_request(old(state)@, round_id, request@),
{
    let ghost s = state@;
    let ledger: &mut RoundLedger = &mut state.rounds[at];
    ledger.randomness = Some(request);
    let ghost after = ledger@;
    proof {
        assert(s.ledger(round_id) == old(state).rounds@[at as int]@);
        assert(after =~= (LedgerView { randomness: Some(request@), ..s.ledger(round_id) }));
        assert(rounds_view(state.rounds@) =~= s.rounds.update(at as int, after));
        assert forall|j: int| 0 <= j < state@.rounds.len() implies #[trigger] in_place(
            state@.rounds,
            j,
        ) by {
            assert(in_place(s.rounds, j));
        }
    }
}

/// The digest of a signature, where there is one.
pub open spec fn signature_digest(signature: Option<Seq<u8>>) -> Seq<u8> {
    match signature {
        Some(bytes) => sha256_digest(bytes),
        None => Seq::empty(),
    }
}

/// Why submitted randomness is refused; `digest` is that of the signature.
pub open spec fn submit_refusal(
    s: StateView,
    sender: Seq<char>,
    round_id: u64,
    randomness: Seq<u8>,
    signature: Option<Seq<u8>>,
    digest: Seq<u8>,
    pairing: PairingAnswer<Seq<char>>,
) -> Option<ErrorView> {
    if !s.config.may_submit(sender) {
        Some(ContractError::UnauthorizedSubmitter)
    } else if s.config.randomness_mode == RandomnessMode::CommitReveal {
        Some(ContractError::WrongMode { mode: s.config.randomness_mode.word() })
    } else if pending_refusal(s, round_id) is Some {
        pending_refusal(s, round_id)
    } else if s.config.randomness_mode == RandomnessMode::Mock {
        mock_refusal(randomness)
    } else {
        match signature {
            None => Some(
                ContractError::VerificationFailed { reason: "drand mode requires a signature"@ },
            ),
            Some(bytes) => drand_refusal(
                s.config.verify_mode,
                s.config.drand_pubkey,
                randomness,
                bytes,
                digest,
                pairing,
            ),
        }
    }
}

/// What submitting randomness leads to; `digest` is that of the signature.
pub open spec fn submit_outcome(
    s: StateView,
    sender: Seq<char>,
    round_id: u64,
    randomness: Seq<u8>,
    signature: Option<Seq<u8>>,
    digest: Seq<u8>,
    pairing: PairingAnswer<Seq<char>>,
) -> Outcome {
    let request = s.ledger(round_id).randomness->0;
    unless_refused(
        submit_refusal(s, sender, round_id, randomness, signature, digest, pairing),
        with_request(
            s,
            round_id,
            RequestView {
                status: RandomnessStatus::Fulfilled,
                randomness: Some(randomness),
                signature,
                ..request
            },
        ),
        ResponseView::recording(
            EventView::named("winsaf/submit_randomness"@).attr(
                "round_id"@,
                decimal(round_id as nat),
            ).attr("mode"@, s.config.randomness_mode.word()).attr("randomness"@, hex(randomness)),
        ),
    )
}

/// Accepts randomness for a closed round, given the digest of its signature and
/// the host's answer to the pairing query.
pub fn submit_with_digest(
    state: &mut State,
    info: &MessageInfo,
    round_id: u64,
    randomness: Vec<u8>,
    signature: Option<Vec<u8>>,
    digest: &[u8],
    pairing: &PairingAnswer,
) -> (result: Result<Response, ContractError>)
    requires
        old(state).wf(),
    ensures
        final(state).wf(),
        conforms(
            old(state)@,
            final(state)@,
            result,
            submit_outcome(
                old(state)@,
                info@.sender,
                round_id,
                randomness@,
                bytes_view(signature),
                digest@,
                pairing@,
            ),
        ),
{
    if !state.config.is_submitter(&info.sender) {
        return Err(ContractError::UnauthorizedSubmitter);
    }
    let mode = state.config.randomness_mode;
    if matches!(mode, RandomnessMode::CommitReveal) {
        return Err(ContractError::WrongMode { mode: mode.as_str().to_owned() });
    }
    let (at, pending) = match load_pending_randomness(state, round_id) {
        Ok(found) => found,
        Err(e) => return Err(e),
    };
    if matches!(mode, RandomnessMode::Mock) {
        match verify_mock(randomness.as_slice()) {
            Ok(()) => {},
            Err(e) => return Err(e),
        }
    } else {
        match &signature {
            None => return Err(
                ContractError::verification_failed("drand mode requires a signature"),
            ),
            Some(bytes) => match check_drand(
                &state.config.verify_mode,
                state.config.drand_pubkey.as_slice(),
                randomness.as_slice(),
                bytes.as_slice(),
                digest,
                pairing,
            ) {
                Ok(()) => {},
                Err(e) => return Err(e),
            },
        }
    }
    let event = Event::new("winsaf/submit_randomness").attr(
        "round_id",
        decimal_text(round_id as u128),
    ).attr("mode", mode.as_str().to_owned()).attr("randomness", hex_text(randomness.as_slice()));
    let mut request = pending;
    request.status = RandomnessStatus::Fulfilled;
    request.randomness = Some(randomness);
    request.signature = signature;
    store_request(state, at, round_id, request);
    Ok(Response::recording(event))
}

/// Accepts randomness for a closed round from a submitter. `pairing` is the host's
/// answer to the [`randomness_query`] of the same arguments.
pub fn execute_submit_randomness(
    state: &mut State,
    info: &MessageInfo,
    round_id: u64,
    randomness: Vec<u8>,
    signature: Option<Vec<u8>>,
    pairing: &PairingAnswer,
) -> (result: Result<Response, ContractError>)
    requires
        old(state).wf(),
    ensures
        final(state).wf(),
        conforms(
            old(state)@,
            final(state)@,
            result,
            submit_outcome(
                old(state)@,
                info@.sender,
                round_id,
                randomness@,
                bytes_view(signature),
                signature_digest(bytes_view(signature)),
                pairing@,
            ),
        ),
{
    let digest: Vec<u8> = match &signature {
        Some(bytes) => copy_bytes(&sha256(bytes.as_slice())),
        None => Vec::new(),
    };
    submit_with_digest(state, info, round_id, randomness, signature, digest.as_slice(), pairing)
}

/// Whether the host's pairing decides about submitted randomness: it would be
/// accepted if the pairing held, and the configuration asks for the pairing.
pub open spec fn pairing_decides(
    s: StateView,
    sender: Seq<char>,
    round_id: u64,
    randomness: Seq<u8>,
    signature: Option<Seq<u8>>,
) -> bool {
    &&& s.config.randomness_mode == RandomnessMode::Drand
    &&& s.config.verify_mode == VerifyMode::Bls
    &&& submit_refusal(
        s,
        sender,
        round_id,
        randomness,
        signature,
        signature_digest(signature),
        PairingAnswer::Holds,
    ) is None
}

/// The message that the host is asked about: the one that drand signs for the beacon
/// round that the round waits for.
pub open spec fn asked_message(s: StateView, round_id: u64) -> Seq<u8> {
    sha256_digest(be_bytes(s.ledger(round_id).randomness->0.beacon_round))
}

/// What the host has to be asked before randomness is submitted, where its answer
/// decides.
pub fn randomness_query(
    state: &State,
    info: &MessageInfo,
    round_id: u64,
    randomness: &[u8],
    signature: &Option<Vec<u8>>,
) -> (query: Option<PairingQuery>)
    requires
        state.wf(),
    ensures
        query is Some <==> pairing_decides(
            state@,
            info@.sender,
            round_id,
            randomness@,
            bytes_view(*signature),
        ),
        query matches Some(q) ==> q.message@ == asked_message(state@, round_id) && q.dst@
            == DRAND_DST@ && bytes_view(*signature) == Some(q.signature@)
            && q.pubkey@ == state@.config.drand_pubkey,
{
    if !state.config.is_submitter(&info.sender) || !matches!(
        state.config.randomness_mode,
        RandomnessMode::Drand
    ) {
        return None;
    }
    let (_, pending) = match load_pending_randomness(state, round_id) {
        Ok(found) => found,
        Err(_) => return None,
    };
    match signature {
        None => None,
        Some(bytes) => pairing_query(
            &state.config.verify_mode,
            state.config.drand_pubkey.as_slice(),
            pending.beacon_round,
            randomness,
            bytes.as_slice(),
        ),
    }
}

/// Why a step of commit-reveal is refused to a sender.
pub open spec fn commit_reveal_refusal(s: StateView, sender: Seq<char>) -> Option<ErrorView> {
    if s.config.randomness_mode != RandomnessMode::CommitReveal {
        Some(ContractError::WrongMode { mode: s.config.randomness_mode.word() })
    } else if !s.config.may_submit(sender) {
        Some(ContractError::UnauthorizedSubmitter)
    } else {
        None
    }
}

fn check_commit_reveal(state: &State, sender: &String) -> (result: Result<(), ContractError>)
    ensures
        match commit_reveal_refusal(state@, sender@) {
            Some(e) => result matches Err(error) && error@ == e,
            None => result is Ok,
        },
{
    let mode = state.config.randomness_mode;
    if !matches!(mode, RandomnessMode::CommitReveal) {
        return Err(ContractError::WrongMode { mode: mode.as_str().to_owned() });
    }
    if !state.config.is_submitter(sender) {
        return Err(ContractError::UnauthorizedSubmitter);
    }
    Ok(())
}

/// Why a commitment is refused.
pub open spec fn commit_refusal(
    s: StateView,
    sender: Seq<char>,
    round_id: u64,
    commitment: Seq<u8>,
) -> Option<ErrorView> {
    if commit_reveal_refusal(s, sender) is Some {
        commit_reveal_refusal(s, sender)
    } else if commitment.len() != RANDOMNESS_LEN {
        Some(
            ContractError::VerificationFailed {
                reason: "commitment hash must be 32 bytes (sha256)"@,
            },
        )
    } else {
        pending_refusal(s, round_id)
    }
}

/// By when a value has to be revealed that is committed to now.
pub open spec fn reveal_deadline(s: StateView, env: Env) -> u64 {
    if env.now() + s.config.reveal_timeout <= u64::MAX {
        (env.now() + s.config.reveal_timeout) as u64
    } else {
        u64::MAX
    }
}

/// What a commitment leads to.
pub open spec fn commit_outcome(
    s: StateView,
    env: Env,
    sender: Seq<char>,
    round_id: u64,
    commitment: Seq<u8>,
) -> Outcome {
    let request = s.ledger(round_id).randomness->0;
    unless_refused(
        commit_refusal(s, sender, round_id, commitment),
        with_request(
            s,
            round_id,
            RequestView {
                status: RandomnessStatus::Committed,
                commitment: Some(commitment),
                committer: Some(sender),
                commit_height: Some(env.height),
                reveal_deadline: Some(reveal_deadline(s, env)),
                ..request
            },
        ),
        ResponseView::recording(
            EventView::named("winsaf/commit_randomness"@).attr(
                "round_id"@,
                decimal(round_id as nat),
            ).attr("committer"@, sender).attr("commitment"@, hex(commitment)),
        ),
    )
}

/// Stores the commitment of a submitter for a closed round.
pub fn execute_commit_randomness(
    state: &mut State,
    env: &Env,
    info: &MessageInfo,
    round_id: u64,
    commitment: Vec<u8>,
) -> (result: Result<Response, ContractError>)
    requires
        old(state).wf(),
    ensures
        final(state).wf(),
        conforms(
            old(state)@,
            final(state)@,
            result,
            commit_outcome(old(state)@, *env, info@.sender, round_id, commitment@),
        ),
{
    match check_commit_reveal(state, &info.sender) {
        Ok(()) => {},
        Err(e) => return Err(e),
    }
    if commitment.len() != RANDOMNESS_LEN {
        return Err(
            ContractError::verification_failed("commitment hash must be 32 bytes (sha256)"),
        );
    }
    let (at, pending) = match load_pending_randomness(state, round_id) {
        Ok(found) => found,
        Err(e) => return Err(e),
    };
    let event = Event::new("winsaf/commit_randomness").attr(
        "round_id",
        decimal_text(round_id as u128),
    ).attr("committer", info.sender.clone()).attr("commitment", hex_text(commitment.as_slice()));
    let mut request = pending;
    request.status = RandomnessStatus::Committed;
    request.commitment = Some(commitment);
    request.committer = Some(info.sender.clone());
    request.commit_height = Some(env.height);
    request.reveal_deadline = Some(env.seconds().saturating_add(state.config.reveal_timeout));
    store_request(state, at, round_id, request);
    Ok(Response::recording(event))
}

/// Why a reveal is refused; `digest` is that of the revealed value.
pub open spec fn reveal_refusal(
    s: StateView,
    sender: Seq<char>,
    round_id: u64,
    digest: Seq<u8>,
) -> Option<ErrorView> {
    if commit_reveal_refusal(s, sender) is Some {
        commit_reveal_refusal(s, sender)
    } else if pending_refusal(s, round_id) is Some {
        pending_refusal(s, round_id)
    } else {
        match s.ledger(round_id).randomness->0.commitment {
            None => Some(ContractError::NoCommitment { round_id }),
            Some(commitment) => if s.ledger(round_id).randomness->0.committer != Some(sender) {
                Some(ContractError::Unauthorized { role: "committer"@ })
            } else if digest != commitment {
                Some(ContractError::RevealMismatch)
            } else {
                None
            },
        }
    }
}

/// What a reveal leads to; `digest` is that of the revealed value and becomes the
/// randomness.
pub open spec fn reveal_outcome(
    s: StateView,
    sender: Seq<char>,
    round_id: u64,
    digest: Seq<u8>,
) -> Outcome {
    let request = s.ledger(round_id).randomness->0;
    unless_refused(
        reveal_refusal(s, sender, round_id, digest),
        with_request(
            s,
            round_id,
            RequestView {
                status: RandomnessStatus::Fulfilled,
                randomness: Some(digest),
                ..request
            },
        ),
        ResponseView::recording(
            EventView::named("winsaf/reveal_randomness"@).attr(
                "round_id"@,
                decimal(round_id as nat),
            ).attr("randomness"@, hex(digest)),
        ),
    )
}

/// Accepts a revealed value, given its digest.
pub fn reveal_with_digest(
    state: &mut State,
    info: &MessageInfo,
    round_id: u64,
    digest: &[u8],
) -> (result: Result<Response, ContractError>)
    requires
        old(state).wf(),
    ensures
        final(state).wf(),
        conforms(
            old(state)@,
            final(state)@,
            result,
            reveal_outcome(old(state)@, info@.sender, round_id, digest@),
        ),
{
    match check_commit_reveal(state, &info.sender) {
        Ok(()) => {},
        Err(e) => return Err(e),
    }
    let (at, pending) = match load_pending_randomness(state, round_id) {
        Ok(found) => found,
        Err(e) => return Err(e),
    };
    match &pending.commitment {
        None => return Err(ContractError::NoCommitment { round_id }),
        Some(commitment) => {
            let is_committer: bool = match &pending.committer {
                Some(who) => *who == info.sender,
                None => false,
            };
            if !is_committer {
                return Err(ContractError::unauthorized("committer"));
            }
            match check_reveal(commitment.as_slice(), digest) {
                Ok(()) => {},
                Err(e) => return Err(e),
            }
        },
    }
    let event = Event::new("winsaf/reveal_randomness").attr(
        "round_id",
        decimal_text(round_id as u128),
    ).attr("randomness", hex_text(digest));
    let mut request = pending;
    request.status = RandomnessStatus::Fulfilled;
    request.randomness = Some(copy_bytes(digest));
    store_request(state, at, round_id, request);
    Ok(Response::recording(event))
}

/// Reveals the value that the sender committed to. The randomness of the round is
/// the value's digest: 32 bytes, whatever the length of the value.
pub fn execute_reveal_randomness(
    state: &mut State,
    info: &MessageInfo,
    round_id: u64,
    value: Vec<u8>,
) -> (result: Result<Response, ContractError>)
    requires
        old(state).wf(),
    ensures
        final(state).wf(),
        conforms(
            old(state)@,
            final(state)@,
            result,
            reveal_outcome(old(state)@, info@.sender, round_id, sha256_digest(value@)),
        ),
{
    let digest = sha256(value.as_slice());
    reveal_with_digest(state, info, round_id, &digest)
}

} // verus!
