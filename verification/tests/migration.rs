use asset_migration::codec::{decode_u32, decode_v0, decode_v1, encode_u32, encode_v0, encode_v1, encode_v2};
use asset_migration::engine::{InvariantViolation, MigrateToV2};
use asset_migration::records::{AssetDetails, AssetDetailsV0, AssetDetailsV1, AssetStatus};
use asset_migration::storage::AssetStorage;

fn sample_v0(frozen: bool) -> AssetDetailsV0 {
    AssetDetailsV0 {
        owner: 1,
        issuer: 2,
        admin: 3,
        freezer: 4,
        supply: 1000,
        deposit: 5,
        min_balance: 1,
        is_sufficient: true,
        accounts: 7,
        sufficients: 8,
        approvals: 9,
        is_frozen: frozen,
    }
}

fn sample_v1(status: AssetStatus) -> AssetDetailsV1 {
    AssetDetailsV1 {
        owner: 10,
        issuer: 20,
        admin: 30,
        freezer: 40,
        supply: 500,
        deposit: 6,
        min_balance: 2,
        is_sufficient: false,
        accounts: 11,
        sufficients: 12,
        approvals: 13,
        status,
    }
}

#[test]
fn v0_frozen_flag_maps_to_frozen_status() {
    let migrated = sample_v0(true).migrate_from_v0_to_v2();
    assert_eq!(migrated.status, AssetStatus::Frozen);
    let migrated = sample_v0(false).migrate_from_v0_to_v2();
    assert_eq!(migrated.status, AssetStatus::Live);
}

#[test]
fn v1_status_passes_through_unchanged() {
    for status in [AssetStatus::Live, AssetStatus::Frozen, AssetStatus::Destroying] {
        let migrated = sample_v1(status).migrate_from_v1_to_v2();
        assert_eq!(migrated.status, status);
    }
}

#[test]
fn identity_fields_become_present_options() {
    let migrated = sample_v0(false).migrate_from_v0_to_v2();
    assert_eq!(migrated.owner, Some(1));
    assert_eq!(migrated.issuer, Some(2));
    assert_eq!(migrated.admin, Some(3));
    assert_eq!(migrated.freezer, Some(4));
    let migrated = sample_v1(AssetStatus::Live).migrate_from_v1_to_v2();
    assert_eq!(migrated.owner, Some(10));
    assert_eq!(migrated.issuer, Some(20));
    assert_eq!(migrated.admin, Some(30));
    assert_eq!(migrated.freezer, Some(40));
}

#[test]
fn other_fields_carry_over_unchanged() {
    let migrated = sample_v0(false).migrate_from_v0_to_v2();
    assert_eq!(migrated.supply, 1000);
    assert_eq!(migrated.deposit, 5);
    assert_eq!(migrated.min_balance, 1);
    assert!(migrated.is_sufficient);
    assert_eq!(migrated.accounts, 7);
    assert_eq!(migrated.sufficients, 8);
    assert_eq!(migrated.approvals, 9);
}

#[test]
fn encode_v0_exact_bytes() {
    let record = sample_v0(true);
    let bytes = encode_v0(&record);
    let mut expected = Vec::new();
    for v in [1u64, 2, 3, 4, 1000, 5, 1] {
        expected.extend_from_slice(&v.to_le_bytes());
    }
    expected.push(1); // sufficient
    for v in [7u32, 8, 9] {
        expected.extend_from_slice(&v.to_le_bytes());
    }
    expected.push(1); // frozen
    assert_eq!(bytes.len(), 70);
    assert_eq!(bytes, expected);
}

#[test]
fn codec_round_trips() {
    let v0 = sample_v0(false);
    assert_eq!(decode_v0(&encode_v0(&v0)), Some(v0));
    let v1 = sample_v1(AssetStatus::Destroying);
    assert_eq!(decode_v1(&encode_v1(&v1)), Some(v1));
    let snapshot = encode_u32(0xDEAD_BEEF);
    assert_eq!(decode_u32(&snapshot), 0xDEAD_BEEF);
}

#[test]
fn malformed_values_fail_to_decode() {
    let mut bytes = encode_v0(&sample_v0(false));
    bytes.push(0);
    assert_eq!(decode_v0(&bytes), None); // trailing byte
    let mut bytes = encode_v0(&sample_v0(false));
    bytes[69] = 2; // not a boolean byte
    assert_eq!(decode_v0(&bytes), None);
    let mut bytes = encode_v1(&sample_v1(AssetStatus::Live));
    bytes[69] = 3; // not a status byte
    assert_eq!(decode_v1(&bytes), None);
    bytes[56] = 9; // not a boolean byte
    assert_eq!(decode_v1(&bytes), None);
    assert_eq!(decode_v0(&Vec::new()), None);
}

#[test]
fn migration_pass_rewrites_every_record() {
    let mut storage = AssetStorage::new(0);
    storage.insert(100, encode_v0(&sample_v0(true)));
    storage.insert(200, encode_v0(&sample_v0(false)));
    let report = MigrateToV2::on_runtime_upgrade(&mut storage, 1);
    assert_eq!(report.translated, 2);
    assert_eq!(report.version, 1);
    assert_eq!(report.reads, 3);
    assert_eq!(report.writes, 3);
    assert_eq!(storage.version(), 1);
    assert_eq!(storage.len(), 2);
    assert_eq!(storage.key_at(0), 100);
    assert_eq!(storage.key_at(1), 200);
    let expected = encode_v2(&sample_v0(true).migrate_from_v0_to_v2());
    assert_eq!(storage.value_at(0), &expected);
    let expected = encode_v2(&sample_v0(false).migrate_from_v0_to_v2());
    assert_eq!(storage.value_at(1), &expected);
}

#[test]
fn intermediate_pass_rewrites_every_record() {
    let mut storage = AssetStorage::new(1);
    storage.insert(7, encode_v1(&sample_v1(AssetStatus::Frozen)));
    let report = MigrateToV2::on_runtime_upgrade(&mut storage, 2);
    assert_eq!(report.translated, 1);
    assert_eq!(report.version, 2);
    assert_eq!(storage.version(), 2);
    let expected = encode_v2(&sample_v1(AssetStatus::Frozen).migrate_from_v1_to_v2());
    assert_eq!(storage.value_at(0), &expected);
}

#[test]
fn undecodable_record_is_dropped() {
    let mut storage = AssetStorage::new(0);
    storage.insert(1, encode_v0(&sample_v0(false)));
    storage.insert(2, vec![0xFF; 3]);
    let report = MigrateToV2::on_runtime_upgrade(&mut storage, 1);
    assert_eq!(report.translated, 1);
    assert_eq!(storage.len(), 1);
    assert_eq!(storage.key_at(0), 1);
}

#[test]
fn second_invocation_is_inert() {
    let mut storage = AssetStorage::new(0);
    storage.insert(1, encode_v0(&sample_v0(false)));
    storage.insert(2, encode_v0(&sample_v0(true)));
    let first = MigrateToV2::on_runtime_upgrade(&mut storage, 1);
    assert_eq!(first.translated, 2);
    assert_eq!(storage.version(), 1);
    let before: Vec<Vec<u8>> = (0..storage.len()).map(|i| storage.value_at(i).clone()).collect();
    let second = MigrateToV2::on_runtime_upgrade(&mut storage, 1);
    assert_eq!(second.translated, 0);
    assert_eq!(second.reads, 1);
    assert_eq!(second.writes, 0);
    assert_eq!(storage.version(), 1);
    for i in 0..storage.len() {
        assert_eq!(storage.value_at(i), &before[i]);
    }
}

#[test]
fn up_to_date_version_is_a_no_op() {
    let mut storage = AssetStorage::new(2);
    storage.insert(5, encode_v1(&sample_v1(AssetStatus::Live)));
    let before = storage.value_at(0).clone();
    let report = MigrateToV2::on_runtime_upgrade(&mut storage, 2);
    assert_eq!(report.translated, 0);
    assert_eq!(report.version, 2);
    assert_eq!(report.reads, 1);
    assert_eq!(report.writes, 0);
    assert_eq!(storage.version(), 2);
    assert_eq!(storage.value_at(0), &before);
}

#[test]
fn unknown_version_applies_nothing() {
    let mut storage = AssetStorage::new(5);
    storage.insert(5, encode_v0(&sample_v0(false)));
    let before = storage.value_at(0).clone();
    let report = MigrateToV2::on_runtime_upgrade(&mut storage, 2);
    assert_eq!(report.translated, 0);
    assert_eq!(report.version, 5);
    assert_eq!(report.reads, 1);
    assert_eq!(report.writes, 0);
    assert_eq!(storage.version(), 5);
    assert_eq!(storage.value_at(0), &before);
}

#[test]
fn version_never_decreases_across_calls() {
    let mut storage = AssetStorage::new(0);
    storage.insert(1, encode_v0(&sample_v0(false)));
    let mut last = storage.version();
    for target in [9, 1, 0, 2, 2, 7] {
        MigrateToV2::on_runtime_upgrade(&mut storage, target);
        assert!(storage.version() >= last);
        last = storage.version();
    }
    assert_eq!(last, 2);
}

#[test]
fn count_and_keys_preserved_without_decode_failures() {
    let mut storage = AssetStorage::new(0);
    for key in [4u64, 8, 15, 16, 23, 42] {
        let mut record = sample_v0(key % 2 == 0);
        record.owner = key;
        storage.insert(key, encode_v0(&record));
    }
    let report = MigrateToV2::on_runtime_upgrade(&mut storage, 1);
    assert_eq!(report.translated, 6);
    assert_eq!(storage.len(), 6);
    let keys: Vec<u64> = (0..storage.len()).map(|i| storage.key_at(i)).collect();
    assert_eq!(keys, vec![4, 8, 15, 16, 23, 42]);
}

#[test]
fn pre_check_snapshots_count_only_at_predecessor_version() {
    let mut storage = AssetStorage::new(0);
    storage.insert(1, encode_v0(&sample_v0(false)));
    storage.insert(2, encode_v0(&sample_v0(true)));
    let snapshot = MigrateToV2::pre_upgrade(&storage).expect("version is the predecessor");
    assert_eq!(decode_u32(&snapshot), 2);
    let storage = AssetStorage::new(1);
    assert_eq!(
        MigrateToV2::pre_upgrade(&storage),
        Err(InvariantViolation::NonLinearUpgrade)
    );
}

#[test]
fn post_check_accepts_a_completed_pass() {
    let mut storage = AssetStorage::new(0);
    storage.insert(1, encode_v0(&sample_v0(false)));
    let snapshot = MigrateToV2::pre_upgrade(&storage).expect("version is the predecessor");
    MigrateToV2::on_runtime_upgrade(&mut storage, 1);
    assert_eq!(MigrateToV2::post_upgrade(&storage, 1, &snapshot), Ok(()));
}

#[test]
fn post_check_reports_each_violation() {
    let mut storage = AssetStorage::new(1);
    storage.insert(1, encode_v0(&sample_v0(false)));
    let wrong_count = encode_u32(9);
    assert_eq!(
        MigrateToV2::post_upgrade(&storage, 1, &wrong_count),
        Err(InvariantViolation::CountMismatch)
    );
    let right_count = encode_u32(1);
    assert_eq!(
        MigrateToV2::post_upgrade(&storage, 2, &right_count),
        Err(InvariantViolation::UnexpectedTarget)
    );
    let storage_behind = AssetStorage::new(0);
    let empty_count = encode_u32(0);
    assert_eq!(
        MigrateToV2::post_upgrade(&storage_behind, 1, &empty_count),
        Err(InvariantViolation::MarkerMismatch)
    );
}

#[test]
fn migrated_record_encoding_has_present_options() {
    let migrated = sample_v0(true).migrate_from_v0_to_v2();
    let bytes = encode_v2(&migrated);
    assert_eq!(bytes.len(), 74);
    assert_eq!(bytes[0], 1); // owner present
    assert_eq!(bytes[9], 1); // issuer present
    assert_eq!(bytes[18], 1); // admin present
    assert_eq!(bytes[27], 1); // freezer present
    assert_eq!(bytes[73], 1); // status byte: frozen
    let absent = AssetDetails { owner: None, ..migrated };
    let bytes = encode_v2(&absent);
    assert_eq!(bytes.len(), 66);
    assert_eq!(bytes[0], 0); // owner absent
}
