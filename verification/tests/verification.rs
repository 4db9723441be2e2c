use winsaf::error::ContractError;
use winsaf::state::VerifyMode;
use winsaf::text::hex_text;
use winsaf::verify::{
    drand_message, pairing_query, sha256, verify_drand, verify_mock, verify_reveal, PairingAnswer,
    DRAND_DST, G1_LEN, G2_LEN,
};

const NOT_ASKED: PairingAnswer = PairingAnswer::DoesNotHold;

#[test]
fn sha256_of_known_text() {
    assert_eq!(
        hex_text(&sha256(b"abc")),
        "ba7816bf8f01cfea414140de5dae2223b00361a396177a9cb410ff61f20015ad"
    );
}

#[test]
fn drand_message_is_sha256_of_be_round() {
    let m = drand_message(1);
    let expected = sha256(&1u64.to_be_bytes());
    assert_eq!(m, expected);
}

#[test]
fn reveal_matches_commitment() {
    let value = vec![9u8; 32];
    let commitment = sha256(&value);
    assert!(verify_reveal(&commitment, &value).is_ok());

    let wrong = vec![1u8; 32];
    assert_eq!(verify_reveal(&commitment, &wrong), Err(ContractError::RevealMismatch));
}

#[test]
fn dev_verifier_binds_randomness_to_signature() {
    let sig = vec![3u8; G1_LEN];
    let good = sha256(&sig);
    assert!(verify_drand(&VerifyMode::Dev, &[], &good, &sig, &NOT_ASKED).is_ok());

    // Randomness that is not bound to the signature is refused in every mode.
    let bad = vec![0u8; 32];
    assert!(verify_drand(&VerifyMode::Dev, &[], &bad, &sig, &NOT_ASKED).is_err());
}

#[test]
fn bls_verifier_rejects_wrong_pubkey_len() {
    let sig = vec![3u8; G1_LEN];
    let rnd = sha256(&sig);
    let err = verify_drand(&VerifyMode::Bls, &[0u8; 10], &rnd, &sig, &NOT_ASKED).unwrap_err();
    assert!(matches!(err, ContractError::InvalidPubkey { .. }));
}

#[test]
fn mock_verifier_length_only() {
    assert!(verify_mock(&[1u8; 32]).is_ok());
    assert!(matches!(
        verify_mock(&[1u8; 16]),
        Err(ContractError::InvalidRandomnessLength { .. })
    ));
}

#[test]
fn drand_checks_lengths_first() {
    let sig = vec![3u8; G1_LEN];
    assert_eq!(
        verify_drand(&VerifyMode::Dev, &[], &[0u8; 31], &sig, &NOT_ASKED),
        Err(ContractError::InvalidRandomnessLength { actual: 31 })
    );
    assert_eq!(
        verify_drand(&VerifyMode::Dev, &[], &[0u8; 32], &[3u8; 47], &NOT_ASKED),
        Err(ContractError::VerificationFailed {
            reason: "drand signature must be 48 bytes (G1), got 47".to_string()
        })
    );
    assert_eq!(
        verify_drand(&VerifyMode::Dev, &[], &[0u8; 32], &sig, &NOT_ASKED),
        Err(ContractError::VerificationFailed {
            reason: "randomness != sha256(signature)".to_string()
        })
    );
}

#[test]
fn pairing_answer_decides_in_bls_mode() {
    let key = vec![5u8; G2_LEN];
    let sig = vec![3u8; G1_LEN];
    let rnd = sha256(&sig);
    let check = |answer: PairingAnswer| verify_drand(&VerifyMode::Bls, &key, &rnd, &sig, &answer);
    assert!(check(PairingAnswer::Holds).is_ok());
    assert_eq!(
        check(PairingAnswer::DoesNotHold),
        Err(ContractError::VerificationFailed {
            reason: "BLS pairing check did not hold (bad signature/pubkey/round)".to_string()
        })
    );
    assert_eq!(
        check(PairingAnswer::HashFailed("boom".to_string())),
        Err(ContractError::VerificationFailed { reason: "hash_to_g1 failed: boom".to_string() })
    );
    assert_eq!(
        check(PairingAnswer::PairingFailed("boom".to_string())),
        Err(ContractError::VerificationFailed {
            reason: "pairing check errored: boom".to_string()
        })
    );
}

#[test]
fn host_is_asked_in_bls_mode_alone() {
    let key = vec![5u8; G2_LEN];
    let sig = vec![3u8; G1_LEN];
    let rnd = sha256(&sig);
    assert!(pairing_query(&VerifyMode::Dev, &key, 7, &rnd, &sig).is_none());
    assert!(pairing_query(&VerifyMode::Bls, &key, 7, &[0u8; 32], &sig).is_none());
    let query = pairing_query(&VerifyMode::Bls, &key, 7, &rnd, &sig).unwrap();
    assert_eq!(query.message, drand_message(7).to_vec());
    assert_eq!(query.dst, DRAND_DST);
    assert_eq!(query.signature, sig);
    assert_eq!(query.pubkey, key);
}
