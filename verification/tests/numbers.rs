use winsaf::beacon::{BeaconRef, BeaconSource};
use winsaf::codes::{check_normal_code, normalize_code, validate_code};
use winsaf::error::{ContractError, SharedError};
use winsaf::host::Env;
use winsaf::picks::{
    ascending_copy, count_matches, derive_winning_numbers, pick_distinct, quick_pick,
    validate_number_domain, validate_ticket_numbers,
};
use winsaf::prizes::{compute_prize_tiers, PrizeTiers, TierCounts};
use winsaf::state::{default_max_dry_rounds, verify_mode_str, RandomnessMode, VerifyMode};
use winsaf::status::{status_str, RoundStatus};
use winsaf::table::Table;
use winsaf::text::{
    be_bytes_of, bool_text, bytes_before, decimal_text, hex_text, numbers_csv, padded_text,
};
use winsaf::ticket_ids::{find_ticket, ticket_id};

#[test]
fn winning_numbers_are_fixed_by_the_randomness() {
    assert_eq!(derive_winning_numbers(&[7u8; 32], 6, 45), vec![17, 19, 26, 27, 31, 41]);
    assert_eq!(derive_winning_numbers(&[0x11u8; 32], 6, 45), vec![4, 9, 26, 28, 29, 39]);
    assert_eq!(derive_winning_numbers(&[0u8; 32], 6, 45), vec![3, 14, 17, 35, 37, 40]);
    assert_eq!(derive_winning_numbers(&[], 6, 45), vec![3, 6, 8, 24, 30, 39]);
    let bytes: Vec<u8> = (0..32).collect();
    assert_eq!(derive_winning_numbers(&bytes, 5, 9), vec![1, 2, 3, 4, 8]);
}

#[test]
fn quick_picks_are_fixed_by_block_sender_and_sequence() {
    let env = Env { height: 12345, time_nanos: 1571797419879305533 };
    assert_eq!(quick_pick(&env, "alice", 1, 0, 6, 45), vec![14, 27, 39, 40, 41, 44]);
    assert_eq!(quick_pick(&env, "alice", 1, 1, 6, 45), vec![3, 25, 27, 29, 30, 41]);
}

#[test]
fn picks_can_exhaust_their_domain() {
    assert_eq!(derive_winning_numbers(&[1u8; 32], 3, 3), vec![1, 2, 3]);
    let all: Vec<u8> = (1..=255).collect();
    assert_eq!(derive_winning_numbers(&[7u8; 32], 255, 255), all);
    assert_eq!(pick_distinct(0, 1, 1), vec![1]);
}

#[test]
fn picks_are_sorted_with_repetitions() {
    assert_eq!(ascending_copy(&[3, 1, 2, 1]), vec![1, 1, 2, 3]);
}

#[test]
fn matches_are_counted() {
    assert_eq!(count_matches(&[1, 2, 3, 4, 5, 6], &[4, 5, 6, 7, 8, 9]), 3);
    assert_eq!(count_matches(&[], &[1]), 0);
}

fn refused(reason: &str) -> ContractError {
    ContractError::InvalidNumbers { expected: 6, number_max: 45, reason: reason.to_string() }
}

#[test]
fn picks_are_refused_with_a_reason() {
    let check = |numbers: &[u8]| validate_ticket_numbers(numbers, 6, 45).unwrap_err();
    assert_eq!(check(&[1, 2]), refused("count 2"));
    assert_eq!(check(&[5, 1, 2, 5, 1, 3]), refused("duplicate 1"));
    assert_eq!(check(&[0, 1, 2, 3, 4, 5]), refused("value < 1"));
    assert_eq!(check(&[1, 2, 3, 4, 5, 46]), refused("value 46 > 45"));
    assert_eq!(validate_ticket_numbers(&[6, 5, 4, 3, 2, 45], 6, 45).unwrap(), vec![2, 3, 4, 5, 6, 45]);
}

#[test]
fn number_domain_has_to_fit() {
    assert_eq!(
        validate_number_domain(0, 45),
        Err(ContractError::InvalidConfig { reason: "numbers_per_ticket must be > 0".to_string() })
    );
    assert_eq!(
        validate_number_domain(6, 5),
        Err(ContractError::InvalidConfig {
            reason: "number_max must be >= numbers_per_ticket".to_string()
        })
    );
    assert!(validate_number_domain(6, 6).is_ok());
}

#[test]
fn tiers_share_the_pool() {
    let mut counts = TierCounts::zero();
    for m in [0, 2, 3, 3, 3, 4, 5, 5, 6, 7] {
        counts.add(m);
    }
    assert_eq!(counts, TierCounts { three: 3, four: 1, five: 2, six: 2 });
    let tiers = compute_prize_tiers(1_000_000, &counts);
    assert_eq!(
        tiers,
        PrizeTiers { tier_3: 26_666, tier_4: 120_000, tier_5: 100_000, tier_6: 300_000 }
    );
    assert_eq!(tiers.payout_for_matches(2), 0);
    assert_eq!(tiers.payout_for_matches(3), 26_666);
    assert_eq!(tiers.payout_for_matches(6), 300_000);
    assert_eq!(tiers.payout_for_matches(7), 300_000);
}

#[test]
fn tiers_without_winners_or_room_pay_nothing() {
    let none = TierCounts::zero();
    assert_eq!(compute_prize_tiers(1_000_000, &none), PrizeTiers::default());
    let one = TierCounts { three: 0, four: 0, five: 0, six: 1 };
    assert_eq!(compute_prize_tiers(u128::MAX, &one), PrizeTiers::default());
}

#[test]
fn codes_are_trimmed_and_lowered() {
    assert_eq!(normalize_code("  WinBig\n"), "winbig");
    assert_eq!(normalize_code("\u{2003}\t\u{a0}Win Big\u{3000}\u{85}"), "win big");
    assert_eq!(normalize_code("\u{200b}a "), "\u{200b}a");
    assert_eq!(normalize_code(" \t\r\n"), "");
    assert_eq!(normalize_code("Already_fine-1"), "already_fine-1");
    assert_eq!(normalize_code("\u{c4}"), "\u{e4}");
}

#[test]
fn codes_are_checked_in_their_normal_form() {
    assert!(validate_code(" A-b_9 ").is_ok());
    assert!(validate_code(&"x".repeat(32)).is_ok());
    let length = ContractError::InvalidConfig { reason: "code length must be 1..=32".to_string() };
    let alphabet =
        ContractError::InvalidConfig { reason: "code may only contain [a-z0-9_-]".to_string() };
    assert_eq!(validate_code("   "), Err(length));
    assert!(validate_code(&"x".repeat(33)).is_err());
    assert_eq!(validate_code("two words"), Err(alphabet));
    assert!(validate_code("\u{c4}pfel").is_err());
    assert!(check_normal_code("ok").is_ok());
    // 17 characters of two bytes each are longer than 32 bytes.
    assert_eq!(
        check_normal_code(&"\u{e4}".repeat(17)),
        Err(ContractError::InvalidConfig { reason: "code length must be 1..=32".to_string() })
    );
}

#[test]
fn ticket_ids_are_padded_and_sort() {
    assert_eq!(ticket_id(0), "000000000000");
    assert_eq!(ticket_id(42), "000000000042");
    assert_eq!(ticket_id(1_000_000_000_000), "1000000000000");
    assert!(ticket_id(9) < ticket_id(10));
    assert!(bytes_before(ticket_id(9).as_bytes(), ticket_id(10).as_bytes()));
    assert!(!bytes_before(ticket_id(10).as_bytes(), ticket_id(10).as_bytes()));
}

#[test]
fn ticket_ids_are_found_exactly() {
    let find = |id: &str| find_ticket(&id.to_string(), 43);
    assert_eq!(find("000000000042"), Some(42));
    assert_eq!(find("000000000043"), None);
    assert_eq!(find("42"), None);
    assert_eq!(find("0000000000042"), None);
    assert_eq!(find("00000000004x"), None);
    assert_eq!(find(""), None);
    assert_eq!(find("99999999999999999999999999"), None);
}

#[test]
fn text_is_written_as_expected() {
    assert_eq!(decimal_text(0), "0");
    assert_eq!(decimal_text(u128::MAX), "340282366920938463463374607431768211455");
    assert_eq!(padded_text(7, 3), "007");
    assert_eq!(padded_text(1234, 3), "1234");
    assert_eq!(hex_text(&[0, 15, 171, 255]), "000fabff");
    assert_eq!(numbers_csv(&[]), "");
    assert_eq!(numbers_csv(&[1, 20, 3]), "1,20,3");
    assert_eq!(bool_text(true), "true");
    assert_eq!(be_bytes_of(0x0102030405060708), vec![1, 2, 3, 4, 5, 6, 7, 8]);
}

#[test]
fn words_for_modes_and_states() {
    assert_eq!(RandomnessMode::Drand.as_str(), "drand");
    assert_eq!(RandomnessMode::CommitReveal.as_str(), "commit_reveal");
    assert_eq!(RandomnessMode::Mock.as_str(), "mock");
    assert_eq!(verify_mode_str(&VerifyMode::Bls), "bls");
    assert_eq!(verify_mode_str(&VerifyMode::Dev), "dev");
    assert_eq!(status_str(&RoundStatus::Open), "open");
    assert_eq!(status_str(&RoundStatus::Drawing), "drawing");
    assert_eq!(status_str(&RoundStatus::Drawn), "drawn");
    assert_eq!(status_str(&RoundStatus::Settled), "settled");
    assert_eq!(status_str(&RoundStatus::Cancelled), "cancelled");
    assert_eq!(default_max_dry_rounds(), 5);
    assert!(RoundStatus::Drawing.awaits_draw());
}

#[test]
fn table_keeps_one_value_per_key() {
    let mut table: Table<u128> = Table::new();
    let a = "a".to_string();
    let b = "b".to_string();
    assert_eq!(table.get(&a), None);
    table.set(&a, 1);
    table.set(&b, 2);
    table.set(&a, 3);
    assert_eq!(table.get(&a), Some(&3));
    assert_eq!(table.get(&b), Some(&2));
    assert!(table.has_distinct_keys());
}

#[test]
fn beacons_are_refused_with_a_reason() {
    let invalid = |reason: &str| SharedError::InvalidBeacon { reason: reason.to_string() };
    let mut beacon = BeaconRef::pending_drand("", 1);
    assert_eq!(
        beacon.validate(),
        Err(invalid("chain_hash required for drand/nois beacon"))
    );
    assert_eq!(
        BeaconRef::pending_drand("hash", 0).validate(),
        Err(invalid("round must be non-zero for drand/nois beacon"))
    );
    assert_eq!(
        beacon.randomness_bytes(),
        Err(invalid("beacon randomness not yet delivered"))
    );
    assert_eq!(
        beacon.fulfill(vec![1u8; 31]),
        Err(invalid("randomness must be 32 bytes, got 31"))
    );
    assert!(!beacon.is_fulfilled());
    let broken = BeaconRef {
        source: BeaconSource::Nois,
        chain_hash: "hash".to_string(),
        round: 1,
        randomness: Some(vec![1u8; 33]),
    };
    assert_eq!(broken.validate(), Err(invalid("randomness must be 32 bytes, got 33")));
    assert!(beacon.fulfill(vec![9u8; 32]).is_ok());
    assert_eq!(beacon.randomness_bytes(), Ok(vec![9u8; 32]));
}
