//! Tests for the write-ahead log codec, the reader's corruption
//! tolerance, and cold-start recovery.

use riskr::pool::ActorPool;
use riskr::rules_streaming::StreamingRule;
use riskr::recovery::StateRecovery;
use riskr::snapshot::{is_snapshot_name, select_snapshots, Snapshot};
use riskr::state::{TxEntry, UserState};
use riskr::usd::Usd;
use riskr::wal::{read_entries, WalEntry, WalReader, WalWriter};

const NOW: i64 = 1_700_000_000_000;

#[test]
fn test_write_and_read() {
    let mut writer = WalWriter::new();
    writer.append(&WalEntry::transaction(
        "user1".to_string(),
        NOW,
        Usd::from_dollars(1000),
    ));
    writer.append(&WalEntry::transaction(
        "user2".to_string(),
        NOW,
        Usd::from_dollars(2000),
    ));
    assert_eq!(writer.entries_written(), 2);
    let text = writer.take_buffer();

    let mut reader = WalReader::new(&text);
    let entry1 = reader.next_entry().unwrap();
    match entry1 {
        WalEntry::Transaction { user_id, usd_value, .. } => {
            assert_eq!(user_id, "user1");
            assert_eq!(usd_value, Usd::from_dollars(1000));
        }
        _ => panic!("expected transaction entry"),
    }
    let entry2 = reader.next_entry().unwrap();
    match entry2 {
        WalEntry::Transaction { user_id, .. } => {
            assert_eq!(user_id, "user2");
        }
        _ => panic!("expected transaction entry"),
    }
    assert!(reader.next_entry().is_none());
    assert_eq!(reader.entries_read(), 2);
    assert_eq!(reader.errors(), 0);
}

#[test]
fn test_checkpoint_entry() {
    let mut writer = WalWriter::new();
    writer.append(&WalEntry::checkpoint("snap_001".to_string()));
    let text = writer.take_buffer();
    let mut reader = WalReader::new(&text);
    match reader.next_entry().unwrap() {
        WalEntry::Checkpoint { snapshot_id } => {
            assert_eq!(snapshot_id, "snap_001");
        }
        _ => panic!("expected checkpoint entry"),
    }
}

#[test]
fn test_iterator() {
    let mut writer = WalWriter::new();
    for i in 0..5 {
        writer.append(&WalEntry::transaction(
            format!("user{}", i),
            NOW,
            Usd::from_dollars(i * 1000),
        ));
    }
    let text = writer.take_buffer();
    let (entries, errors) = read_entries(&text);
    assert_eq!(entries.len(), 5);
    assert_eq!(errors, 0);
}

#[test]
fn test_round_trip_awkward_ids() {
    let ids = ["plain", "with \"quotes\"", "back\\slash", "tab\tinside", "line\nbreak"];
    let mut writer = WalWriter::new();
    for id in ids {
        writer.append(&WalEntry::transaction(
            id.to_string(),
            NOW,
            Usd::from_cents(12345),
        ));
    }
    let text = writer.take_buffer();
    let (entries, errors) = read_entries(&text);
    assert_eq!(errors, 0);
    assert_eq!(entries.len(), ids.len());
    for (entry, id) in entries.iter().zip(ids.iter()) {
        match entry {
            WalEntry::Transaction { user_id, usd_value, .. } => {
                assert_eq!(user_id, id);
                assert_eq!(*usd_value, Usd::from_cents(12345));
            }
            _ => panic!("expected transaction entry"),
        }
    }
}

#[test]
fn test_corrupt_record_skipped() {
    let mut writer = WalWriter::new();
    writer.append(&WalEntry::transaction("user1".to_string(), NOW, Usd::from_dollars(100)));
    writer.append(&WalEntry::transaction("user2".to_string(), NOW, Usd::from_dollars(200)));
    writer.append(&WalEntry::transaction("user3".to_string(), NOW, Usd::from_dollars(300)));
    let text = writer.take_buffer();

    // flip one byte inside the middle record's JSON
    let mut lines: Vec<String> = text.lines().map(|l| l.to_string()).collect();
    lines[1] = lines[1].replacen("user2", "user9", 1);
    let corrupted = format!("{}\n{}\n{}\n", lines[0], lines[1], lines[2]);

    let (entries, errors) = read_entries(&corrupted);
    assert_eq!(errors, 1);
    assert_eq!(entries.len(), 2);
    match &entries[0] {
        WalEntry::Transaction { user_id, .. } => assert_eq!(user_id, "user1"),
        _ => panic!("expected transaction entry"),
    }
    match &entries[1] {
        WalEntry::Transaction { user_id, .. } => assert_eq!(user_id, "user3"),
        _ => panic!("expected transaction entry"),
    }
}

#[test]
fn test_streaming_reader_skips_corruption() {
    let mut writer = WalWriter::new();
    writer.append(&WalEntry::transaction("user1".to_string(), NOW, Usd::from_dollars(100)));
    writer.append(&WalEntry::transaction("user2".to_string(), NOW, Usd::from_dollars(200)));
    writer.append(&WalEntry::transaction("user3".to_string(), NOW, Usd::from_dollars(300)));
    let text = writer.take_buffer();
    let mut lines: Vec<String> = text.lines().map(|l| l.to_string()).collect();
    lines[1] = lines[1].replacen("user2", "user9", 1);
    let corrupted = format!("{}\n{}\n{}\n", lines[0], lines[1], lines[2]);

    let mut reader = WalReader::new(&corrupted);
    match reader.next_entry().unwrap() {
        WalEntry::Transaction { user_id, .. } => assert_eq!(user_id, "user1"),
        _ => panic!("expected transaction entry"),
    }
    match reader.next_entry().unwrap() {
        WalEntry::Transaction { user_id, .. } => assert_eq!(user_id, "user3"),
        _ => panic!("expected transaction entry"),
    }
    assert!(reader.next_entry().is_none());
    assert_eq!(reader.entries_read(), 2);
    assert_eq!(reader.errors(), 1);
}

#[test]
fn test_blank_lines_skipped() {
    let mut writer = WalWriter::new();
    writer.append(&WalEntry::transaction("user1".to_string(), NOW, Usd::from_dollars(100)));
    let text = format!("\n  \n{}\n\n", writer.take_buffer());
    let (entries, errors) = read_entries(&text);
    assert_eq!(entries.len(), 1);
    assert_eq!(errors, 0);
}

#[test]
fn test_snapshot_of_live_pool() {
    let mut pool = ActorPool::new();
    let rules: Vec<StreamingRule> = Vec::new();
    for (user, usd) in [("user1", 1000), ("user2", 2000), ("user3", 3000)] {
        let event = riskr::event::TxEvent::new(
            riskr::subject::Subject {
                user_id: riskr::subject::UserId::new(user),
                account_id: riskr::subject::AccountId::new("A1"),
                addresses: vec![],
                geo_iso: riskr::subject::CountryCode::new("US"),
                kyc_tier: riskr::subject::KycTier::L1,
            },
            riskr::event::Asset::new("USDC"),
            Usd::from_dollars(usd),
            riskr::event::Direction::Outbound,
            NOW,
        );
        pool.evaluate_streaming(user, &rules, &event, NOW);
    }
    let recovery = StateRecovery::new("snapshots", "test.wal");
    let snapshot = recovery.create_snapshot(&pool, "snap_007".to_string(), NOW);
    assert_eq!(snapshot.id, "snap_007");
    assert_eq!(snapshot.states.len(), 3);
    let mut users: Vec<&str> = snapshot.states.iter().map(|s| s.user_id()).collect();
    users.sort();
    assert_eq!(users, vec!["user1", "user2", "user3"]);

    // a fresh pool recovered from this snapshot holds the same balances
    let mut restored = ActorPool::new();
    let stats = recovery.recover(&mut restored, Some(snapshot), &Vec::new(), 0, NOW);
    assert_eq!(stats.snapshot_users, 3);
    assert_eq!(stats.total_users, 3);
    let actor = restored.get("user2").unwrap();
    assert_eq!(actor.state().rolling_usd_24h(NOW), Usd::from_dollars(2000));
}

#[test]
fn test_snapshot_name_filter() {
    assert!(is_snapshot_name("snapshot_001.json"));
    assert!(is_snapshot_name("snapshot_.json"));
    assert!(!is_snapshot_name("snapshot_001.tmp"));
    assert!(!is_snapshot_name("checkpoint_001.json"));
    assert!(!is_snapshot_name(".snapshot_001.json.tmp"));
    assert!(!is_snapshot_name("snap.json"));
}

#[test]
fn test_snapshot_selection_newest_first() {
    let files = vec![
        ("snapshot_001.json".to_string(), 100),
        ("notes.txt".to_string(), 900),
        ("snapshot_003.json".to_string(), 300),
        (".snapshot_002.json.tmp".to_string(), 500),
        ("snapshot_002.json".to_string(), 200),
    ];
    let selected = select_snapshots(&files);
    let names: Vec<&str> = selected.iter().map(|(n, _)| n.as_str()).collect();
    assert_eq!(
        names,
        vec!["snapshot_003.json", "snapshot_002.json", "snapshot_001.json"]
    );
}

#[test]
fn test_recovery_from_wal() {
    let mut writer = WalWriter::new();
    writer.append(&WalEntry::transaction("user1".to_string(), NOW, Usd::from_dollars(1000)));
    writer.append(&WalEntry::transaction("user1".to_string(), NOW, Usd::from_dollars(2000)));
    writer.append(&WalEntry::transaction("user2".to_string(), NOW, Usd::from_dollars(5000)));
    let text = writer.take_buffer();
    let (wal_entries, wal_errors) = read_entries(&text);

    let mut pool = ActorPool::new();
    let recovery = StateRecovery::new("snapshots", "test.wal");
    let stats = recovery.recover(&mut pool, None, &wal_entries, wal_errors, NOW);

    assert_eq!(stats.wal_transactions, 3);
    assert_eq!(stats.total_users, 2);

    let actor1 = pool.get("user1").unwrap();
    assert_eq!(actor1.state().rolling_usd_24h(NOW), Usd::from_dollars(3000));
    let actor2 = pool.get("user2").unwrap();
    assert_eq!(actor2.state().rolling_usd_24h(NOW), Usd::from_dollars(5000));
}

#[test]
fn test_recovery_with_checkpoint() {
    // snapshot for user1 with a single 10000 entry
    let mut user1_state = UserState::new("user1".to_string(), NOW);
    user1_state.add_tx(TxEntry::new(NOW, Usd::from_dollars(10000)), NOW);
    let snapshot = Snapshot::new("snap_001".to_string(), vec![user1_state], NOW);

    // WAL: an old entry before the checkpoint, the checkpoint, one after
    let mut writer = WalWriter::new();
    writer.append(&WalEntry::transaction("user1".to_string(), NOW, Usd::from_dollars(100)));
    writer.append(&WalEntry::checkpoint("snap_001".to_string()));
    writer.append(&WalEntry::transaction("user1".to_string(), NOW, Usd::from_dollars(5000)));
    let text = writer.take_buffer();
    let (wal_entries, wal_errors) = read_entries(&text);

    let mut pool = ActorPool::new();
    let recovery = StateRecovery::new("snapshots", "test.wal");
    let stats = recovery.recover(&mut pool, Some(snapshot), &wal_entries, wal_errors, NOW);

    assert_eq!(stats.snapshot_users, 1);
    assert_eq!(stats.wal_transactions, 1);

    let actor = pool.get("user1").unwrap();
    assert_eq!(actor.state().rolling_usd_24h(NOW), Usd::from_dollars(15000));
}

#[test]
fn test_recovery_prunes_expired() {
    let mut writer = WalWriter::new();
    writer.append(&WalEntry::transaction(
        "user1".to_string(),
        NOW - 25 * 3_600_000,
        Usd::from_dollars(1000),
    ));
    let text = writer.take_buffer();
    let (wal_entries, wal_errors) = read_entries(&text);
    let mut pool = ActorPool::new();
    let recovery = StateRecovery::new("snapshots", "test.wal");
    let stats = recovery.recover(&mut pool, None, &wal_entries, wal_errors, NOW);
    // the only reconstructed state was fully expired and never inserted
    assert_eq!(stats.total_users, 0);
    assert!(pool.get("user1").is_none());
}
