use mailsync::matcher::{
    apply_match, decide_row, sender_address, MatchDecision, PersistedRow, SUBJECT_TRUNCATION_LIMIT,
};
use mailsync::meta::MessageMeta;
use mailsync::timestamp::Timestamp;

fn record(uid: u32, mod_seq: u64) -> MessageMeta {
    MessageMeta {
        seq: 0,
        uid,
        mod_seq,
        flags: vec![],
        mid: None,
        dt: None,
        subject: None,
        sender: None,
        raw: None,
    }
}

fn row(id: i64) -> PersistedRow {
    PersistedRow {
        id,
        unid: None,
        mod_seq: None,
        mid: None,
        subject: None,
        sender: None,
        dt: None,
    }
}

fn ts(utc: i64) -> Timestamp {
    Timestamp { utc_seconds: utc, offset_seconds: 0 }
}

#[test]
fn zero_candidates_is_unmatched() {
    let r = row(1);
    assert_eq!(decide_row(&r, &vec![]), MatchDecision::Unmatched);
}

#[test]
fn exact_message_id_matches() {
    let mut rec = record(42, 420);
    rec.mid = Some("<m1@example.org>".to_string());
    let mut r = row(1);
    r.mid = Some("<m1@example.org>".to_string());
    assert_eq!(decide_row(&r, &vec![rec]), MatchDecision::Matched(42, 420));
}

#[test]
fn chat_message_ids_are_never_used() {
    let mut rec = record(42, 420);
    rec.mid = Some("<m1.chat@gmail.com>".to_string());
    let mut r = row(1);
    r.mid = Some("<m1.chat@gmail.com>".to_string());
    // the id is synthetic; without date, subject and sender the composite
    // fallback finds nothing
    assert_eq!(decide_row(&r, &vec![rec]), MatchDecision::Unmatched);
}

#[test]
fn composite_fallback_on_date_subject_sender() {
    let mut rec = record(7, 70);
    rec.dt = Some(ts(994248000));
    rec.subject = Some("Hello".to_string());
    rec.sender = Some("Ann <ann@example.org>".to_string());
    let mut r = row(3);
    r.dt = Some(ts(994248000));
    r.subject = Some("Hello".to_string());
    r.sender = Some("Ann Author <ann@example.org>".to_string());
    assert_eq!(decide_row(&r, &vec![rec]), MatchDecision::Matched(7, 70));
}

#[test]
fn differing_sender_address_excludes_a_candidate() {
    let mut rec = record(7, 70);
    rec.dt = Some(ts(994248000));
    rec.subject = Some("Hello".to_string());
    rec.sender = Some("Ann <ann@example.org>".to_string());
    let mut r = row(3);
    r.dt = Some(ts(994248000));
    r.subject = Some("Hello".to_string());
    r.sender = Some("Bob <bob@example.org>".to_string());
    assert_eq!(decide_row(&r, &vec![rec]), MatchDecision::Unmatched);
}

#[test]
fn truncated_subject_still_reduces_to_one_candidate() {
    let full: String = "s".repeat(SUBJECT_TRUNCATION_LIMIT + 2);
    let truncated: String = full.chars().take(SUBJECT_TRUNCATION_LIMIT).collect();
    assert_eq!(truncated.len(), SUBJECT_TRUNCATION_LIMIT);

    let mut a = record(9, 90);
    a.dt = Some(ts(994248000));
    a.subject = Some(truncated);
    let mut b = record(9, 90);
    b.dt = Some(ts(994248000));
    b.subject = Some(full.clone());

    let mut r = row(5);
    r.dt = Some(ts(994248000));
    r.subject = Some(full);

    // both candidates survive, but they differ only by subject truncation:
    // one key remains and the row matches
    assert_eq!(decide_row(&r, &vec![a, b]), MatchDecision::Matched(9, 90));
}

#[test]
fn genuinely_distinct_candidates_are_ambiguous() {
    let mut a = record(9, 90);
    a.dt = Some(ts(994248000));
    let mut b = record(10, 100);
    b.dt = Some(ts(994248000));
    let mut r = row(5);
    r.dt = Some(ts(994248000));
    assert_eq!(decide_row(&r, &vec![a, b]), MatchDecision::Ambiguous);
}

#[test]
fn ambiguous_message_id_falls_back_to_composite() {
    let mid = "<dup@example.org>".to_string();
    let mut a = record(1, 10);
    a.mid = Some(mid.clone());
    a.dt = Some(ts(994248000));
    let mut b = record(2, 20);
    b.mid = Some(mid.clone());
    b.dt = Some(ts(999999999));
    let mut r = row(6);
    r.mid = Some(mid);
    r.dt = Some(ts(994248000));
    // two distinct keys share the id; the composite fallback narrows by
    // date and leaves exactly one
    assert_eq!(decide_row(&r, &vec![a, b]), MatchDecision::Matched(1, 10));
}

#[test]
fn match_is_applied_exactly_once_per_row() {
    let mut r = row(8);
    assert!(r.unid.is_none());
    apply_match(&mut r, 42, 420);
    assert_eq!(r.unid, Some(42));
    assert_eq!(r.mod_seq, Some(420));
    assert_eq!(r.id, 8);
}

#[test]
fn sender_address_extraction() {
    assert_eq!(sender_address("Ann Author <ann@example.org>"), "ann@example.org");
    assert_eq!(sender_address("  ann@example.org  "), "ann@example.org");
    assert_eq!(sender_address("<a@b>"), "a@b");
}

#[test]
fn date_join_requires_the_same_instant() {
    let mut rec = record(7, 70);
    rec.dt = Some(Timestamp { utc_seconds: 994248000, offset_seconds: 3600 });
    let mut r = row(3);
    r.dt = Some(Timestamp { utc_seconds: 994248000, offset_seconds: 0 });
    // same instant, different written offset: still a join
    assert_eq!(decide_row(&r, &vec![rec]), MatchDecision::Matched(7, 70));
}
