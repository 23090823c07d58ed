use mailsync::flags::Flag;
use mailsync::meta::MessageMeta;
use mailsync::store::MessageStore;
use mailsync::timestamp::Timestamp;

fn record(seq: u32, uid: u32, mod_seq: u64, flags: Vec<Flag>) -> MessageMeta {
    MessageMeta {
        seq,
        uid,
        mod_seq,
        flags,
        mid: Some(format!("<{}@example.org>", uid)),
        dt: Some(Timestamp { utc_seconds: 994248000, offset_seconds: 0 }),
        subject: Some("Hello".to_string()),
        sender: Some("Ann <ann@example.org>".to_string()),
        raw: None,
    }
}

#[test]
fn upsert_by_uid_never_duplicates() {
    let mut store = MessageStore::new();
    store.upsert(&record(1, 10, 100, vec![]));
    store.upsert(&record(2, 11, 101, vec![]));
    assert_eq!(store.len(), 2);
    // the same uid again: replaced, not appended
    store.upsert(&record(3, 10, 102, vec![Flag::Seen]));
    assert_eq!(store.len(), 2);
    let row = store.get(10).unwrap();
    assert_eq!(row.mod_seq, 102);
    assert_eq!(row.flags, vec![Flag::Seen]);
}

#[test]
fn later_observation_replaces_earlier_one() {
    let mut store = MessageStore::new();
    store.upsert(&record(1, 7, 50, vec![]));
    store.upsert(&record(9, 7, 51, vec![Flag::Answered]));
    let row = store.get(7).unwrap();
    assert_eq!(row.mod_seq, 51);
    assert_eq!(row.flags, vec![Flag::Answered]);
}

#[test]
fn rerunning_the_same_records_is_idempotent() {
    let records = vec![
        record(1, 10, 100, vec![Flag::Seen]),
        record(2, 11, 101, vec![]),
        record(3, 10, 102, vec![Flag::Seen, Flag::Flagged]),
    ];
    let mut once = MessageStore::new();
    once.persist_all(&records);
    let mut twice = MessageStore::new();
    twice.persist_all(&records);
    twice.persist_all(&records);
    assert_eq!(once.len(), 2);
    assert_eq!(twice.len(), 2);
    for uid in [10u32, 11u32] {
        let a = once.get(uid).unwrap();
        let b = twice.get(uid).unwrap();
        assert_eq!(a.mod_seq, b.mod_seq);
        assert_eq!(a.flags, b.flags);
        assert_eq!(a.mid, b.mid);
    }
    assert!(once.get(12).is_none());
}

#[test]
fn absent_uid_is_absent() {
    let store = MessageStore::new();
    assert_eq!(store.len(), 0);
    assert!(store.get(1).is_none());
}
