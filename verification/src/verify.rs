//! Verification of randomness before a draw consumes it.
//!
//! A lottery is fair only if whoever delivers the randomness can neither predict
//! nor choose it. Randomness from drand is bound to a beacon signature, which is
//! checked against the configured group key; commit-reveal randomness is bound to
//! a commitment made earlier; the mock mode checks nothing but the length and is
//! for development alone.
//!
//! drand quicknet (`bls-unchained-g1-rfc9380`): the group key is a point in G2, the
//! signature of a round a point in G1, the signed message `sha256(round)`, and the
//! randomness `sha256(signature)`. The pairing equation is evaluated by the chain's
//! host: [`pairing_query`] says what the host is asked, and [`verify_drand`] takes
//! its answer.

use crate::error::{ContractError, ErrorView};
use crate::state::VerifyMode;
use crate::text::{be_bytes, be_bytes_of, copy_bytes, decimal, decimal_text, join, same_bytes};
use sha2::Digest;
use vstd::prelude::*;

verus! {

/// Length of a compressed BLS12-381 G1 point (a quicknet round signature).
pub const G1_LEN: usize = 48;

/// Length of a compressed BLS12-381 G2 point (the quicknet group key).
pub const G2_LEN: usize = 96;

/// Length of a randomness value.
pub const RANDOMNESS_LEN: usize = 32;

/// Domain separation tag of quicknet's hash to G1.
pub const DRAND_DST: &'static str = "BLS_SIG_BLS12381G1_XMD:SHA-256_SSWU_RO_NUL_";

/// The SHA-256 digest of some bytes, as `sha2::Sha256` computes it.
pub uninterp spec fn sha256_digest(data: Seq<u8>) -> Seq<u8>;

/// The SHA-256 digest of some bytes.
///
/// Calls `sha2::Sha256` (`new`, `update`, `finalize`). The digest is a function of
/// the bytes alone, and that is all that is claimed of it besides its length of
/// 32 bytes.
#[verifier::external_body]
pub fn sha256(bytes: &[u8]) -> (digest: [u8; 32])
    ensures
        digest@ == sha256_digest(bytes@),
{
    let mut hasher = sha2::Sha256::new();
    hasher.update(bytes);
    hasher.finalize().into()
}

/// The message that drand signs for a round: `sha256` of its big-endian bytes.
pub fn drand_message(round: u64) -> (message: [u8; 32])
    ensures
        message@ == sha256_digest(be_bytes(round)),
{
    sha256(be_bytes_of(round).as_slice())
}

/// What the host is asked for a drand signature: whether
/// `e(signature, G2 generator) == e(hash_to_g1(message, dst), pubkey)`.
pub struct PairingQuery {
    pub message: Vec<u8>,
    pub dst: String,
    pub signature: Vec<u8>,
    pub pubkey: Vec<u8>,
}

/// What the host answered to a [`PairingQuery`].
#[derive(Debug, PartialEq)]
pub enum PairingAnswer<S = String> {
    /// The message could not be hashed to G1; the text is the host's own.
    HashFailed(S),
    /// The pairing could not be evaluated; the text is the host's own.
    PairingFailed(S),
    Holds,
    DoesNotHold,
}

impl View for PairingAnswer<String> {
    type V = PairingAnswer<Seq<char>>;

    open spec fn view(&self) -> PairingAnswer<Seq<char>> {
        match self {
            PairingAnswer::HashFailed(text) => PairingAnswer::HashFailed(text@),
            PairingAnswer::PairingFailed(text) => PairingAnswer::PairingFailed(text@),
            PairingAnswer::Holds => PairingAnswer::Holds,
            PairingAnswer::DoesNotHold => PairingAnswer::DoesNotHold,
        }
    }
}

/// Why delivered drand randomness is refused without asking the host; `digest` is
/// that of the signature.
pub open spec fn drand_structure_refusal(
    verify_mode: VerifyMode,
    pubkey: Seq<u8>,
    randomness: Seq<u8>,
    signature: Seq<u8>,
    digest: Seq<u8>,
) -> Option<ErrorView> {
    if randomness.len() != RANDOMNESS_LEN {
        Some(ContractError::InvalidRandomnessLength { actual: randomness.len() as usize })
    } else if signature.len() != G1_LEN {
        Some(
            ContractError::VerificationFailed {
                reason: "drand signature must be 48 bytes (G1), got "@ + decimal(signature.len()),
            },
        )
    } else if randomness != digest {
        Some(ContractError::VerificationFailed { reason: "randomness != sha256(signature)"@ })
    } else if verify_mode == VerifyMode::Bls && pubkey.len() != G2_LEN {
        Some(
            ContractError::InvalidPubkey { reason: "drand group pubkey must be 96 bytes (G2)"@ },
        )
    } else {
        None
    }
}

/// Why the host's answer refuses delivered drand randomness.
pub open spec fn pairing_refusal(answer: PairingAnswer<Seq<char>>) -> Option<ErrorView> {
    match answer {
        PairingAnswer::HashFailed(text) => Some(
            ContractError::VerificationFailed { reason: "hash_to_g1 failed: "@ + text },
        ),
        PairingAnswer::PairingFailed(text) => Some(
            ContractError::VerificationFailed { reason: "pairing check errored: "@ + text },
        ),
        PairingAnswer::Holds => None,
        PairingAnswer::DoesNotHold => Some(
            ContractError::VerificationFailed {
                reason: "BLS pairing check did not hold (bad signature/pubkey/round)"@,
            },
        ),
    }
}

/// Why delivered drand randomness is refused, given the digest of the signature
/// and the host's answer to the pairing query of the same arguments.
pub open spec fn drand_refusal(
    verify_mode: VerifyMode,
    pubkey: Seq<u8>,
    randomness: Seq<u8>,
    signature: Seq<u8>,
    digest: Seq<u8>,
    answer: PairingAnswer<Seq<char>>,
) -> Option<ErrorView> {
    match drand_structure_refusal(verify_mode, pubkey, randomness, signature, digest) {
        Some(e) => Some(e),
        None => match verify_mode {
            VerifyMode::Dev => None,
            VerifyMode::Bls => pairing_refusal(answer),
        },
    }
}

/// Checks the lengths of delivered drand randomness and that it is bound to its
/// signature, whose digest is given.
pub fn check_drand_structure(
    verify_mode: &VerifyMode,
    pubkey: &[u8],
    randomness: &[u8],
    signature: &[u8],
    digest: &[u8],
) -> (result: Result<(), ContractError>)
    ensures
        match drand_structure_refusal(*verify_mode, pubkey@, randomness@, signature@, digest@) {
            Some(e) => result matches Err(error) && error@ == e,
            None => result is Ok,
        },
{
    if randomness.len() != RANDOMNESS_LEN {
        return Err(ContractError::InvalidRandomnessLength { actual: randomness.len() });
    }
    if signature.len() != G1_LEN {
        let reason = join(
            "drand signature must be 48 bytes (G1), got ",
            decimal_text(signature.len() as u128).as_str(),
        );
        return Err(ContractError::VerificationFailed { reason });
    }
    if !same_bytes(digest, randomness) {
        return Err(ContractError::verification_failed("randomness != sha256(signature)"));
    }
    if matches!(verify_mode, VerifyMode::Bls) && pubkey.len() != G2_LEN {
        return Err(
            ContractError::InvalidPubkey {
                reason: "drand group pubkey must be 96 bytes (G2)".to_owned(),
            },
        );
    }
    Ok(())
}

/// Checks delivered drand randomness, given the digest of the signature and the
/// host's answer to the pairing query.
pub fn check_drand(
    verify_mode: &VerifyMode,
    pubkey: &[u8],
    randomness: &[u8],
    signature: &[u8],
    digest: &[u8],
    answer: &PairingAnswer,
) -> (result: Result<(), ContractError>)
    ensures
        match drand_refusal(*verify_mode, pubkey@, randomness@, signature@, digest@, answer@) {
            Some(e) => result matches Err(error) && error@ == e,
            None => result is Ok,
        },
{
    match check_drand_structure(verify_mode, pubkey, randomness, signature, digest) {
        Err(e) => return Err(e),
        Ok(()) => {},
    }
    match verify_mode {
        VerifyMode::Dev => Ok(()),
        VerifyMode::Bls => match answer {
            PairingAnswer::HashFailed(text) => Err(
                ContractError::VerificationFailed {
                    reason: join("hash_to_g1 failed: ", text.as_str()),
                },
            ),
            PairingAnswer::PairingFailed(text) => Err(
                ContractError::VerificationFailed {
                    reason: join("pairing check errored: ", text.as_str()),
                },
            ),
            PairingAnswer::Holds => Ok(()),
            PairingAnswer::DoesNotHold => Err(
                ContractError::verification_failed(
                    "BLS pairing check did not hold (bad signature/pubkey/round)",
                ),
            ),
        },
    }
}

/// What the host has to be asked before drand randomness for `round` can be
/// verified: nothing where the structural checks or the development mode decide.
pub fn pairing_query(
    verify_mode: &VerifyMode,
    pubkey: &[u8],
    round: u64,
    randomness: &[u8],
    signature: &[u8],
) -> (query: Option<PairingQuery>)
    ensures
        query is Some <==> drand_structure_refusal(
            *verify_mode,
            pubkey@,
            randomness@,
            signature@,
            sha256_digest(signature@),
        ) is None && *verify_mode == VerifyMode::Bls,
        query matches Some(q) ==> q.message@ == sha256_digest(be_bytes(round)) && q.dst@
            == DRAND_DST@ && q.signature@ == signature@ && q.pubkey@ == pubkey@,
{
    let digest = sha256(signature);
    match check_drand_structure(verify_mode, pubkey, randomness, signature, &digest) {
        Err(_) => None,
        Ok(()) => match verify_mode {
            VerifyMode::Dev => None,
            VerifyMode::Bls => {
                let message = drand_message(round);
                Some(
                    PairingQuery {
                        message: copy_bytes(&message),
                        dst: DRAND_DST.to_owned(),
                        signature: copy_bytes(signature),
                        pubkey: copy_bytes(pubkey),
                    },
                )
            },
        },
    }
}

/// Verifies delivered drand randomness. `answer` is the host's answer to the
/// [`pairing_query`] of the same arguments; it decides in the BLS mode alone, once
/// the structural checks have passed.
pub fn verify_drand(
    verify_mode: &VerifyMode,
    pubkey: &[u8],
    randomness: &[u8],
    signature: &[u8],
    answer: &PairingAnswer,
) -> (result: Result<(), ContractError>)
    ensures
        match drand_refusal(
            *verify_mode,
            pubkey@,
            randomness@,
            signature@,
            sha256_digest(signature@),
            answer@,
        ) {
            Some(e) => result matches Err(error) && error@ == e,
            None => result is Ok,
        },
        result is Ok ==> randomness@ == sha256_digest(signature@),
{
    let digest = sha256(signature);
    check_drand(verify_mode, pubkey, randomness, signature, &digest, answer)
}

/// Checks that the digest of a revealed value is the commitment.
pub fn check_reveal(commitment: &[u8], digest: &[u8]) -> (result: Result<(), ContractError>)
    ensures
        match result {
            Ok(()) => digest@ == commitment@,
            Err(e) => digest@ != commitment@ && e@ == ErrorView::RevealMismatch,
        },
{
    if !same_bytes(digest, commitment) {
        return Err(ContractError::RevealMismatch);
    }
    Ok(())
}

/// Verifies that a revealed value hashes to the commitment.
pub fn verify_reveal(commitment: &[u8], value: &[u8]) -> (result: Result<(), ContractError>)
    ensures
        match result {
            Ok(()) => sha256_digest(value@) == commitment@,
            Err(e) => sha256_digest(value@) != commitment@ && e@ == ErrorView::RevealMismatch,
        },
{
    let digest = sha256(value);
    check_reveal(commitment, &digest)
}

/// Why mock randomness is refused: nothing but its length is checked.
pub open spec fn mock_refusal(randomness: Seq<u8>) -> Option<ErrorView> {
    if randomness.len() != RANDOMNESS_LEN {
        Some(ContractError::InvalidRandomnessLength { actual: randomness.len() as usize })
    } else {
        None
    }
}

/// Accepts mock randomness of the right length.
pub fn verify_mock(randomness: &[u8]) -> (result: Result<(), ContractError>)
    ensures
        match mock_refusal(randomness@) {
            Some(e) => result matches Err(error) && error@ == e,
            None => result is Ok,
        },
{
    if randomness.len() != RANDOMNESS_LEN {
        return Err(ContractError::InvalidRandomnessLength { actual: randomness.len() });
    }
    Ok(())
}

} // verus!
