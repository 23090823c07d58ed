use mailsync::config::{label_action, Label, LabelAction};
use mailsync::flags::Flag;
use mailsync::meta::{DateStyle, MessageMeta};
use mailsync::timestamp::Timestamp;

fn meta() -> MessageMeta {
    MessageMeta {
        seq: 1,
        uid: 2,
        mod_seq: 3,
        flags: vec![],
        mid: None,
        dt: None,
        subject: None,
        sender: None,
        raw: None,
    }
}

#[test]
fn unread_means_no_seen_flag() {
    let mut m = meta();
    assert!(m.unread());
    m.flags = vec![Flag::Answered];
    assert!(m.unread());
    m.flags = vec![Flag::Answered, Flag::Seen];
    assert!(!m.unread());
}

#[test]
fn sender_name_prefers_the_display_part() {
    let mut m = meta();
    assert_eq!(m.sender_name(), "(no sender)");
    m.sender = Some("   ".to_string());
    assert_eq!(m.sender_name(), "(no sender)");
    m.sender = Some("Ann Author <ann@example.org>".to_string());
    assert_eq!(m.sender_name(), "Ann Author");
    m.sender = Some("ann@example.org".to_string());
    assert_eq!(m.sender_name(), "ann@example.org");
}

#[test]
fn subject_strips_one_reply_marker() {
    let mut m = meta();
    assert_eq!(m.subject_display(), "(no subject)");
    m.subject = Some("Re: Hello".to_string());
    assert_eq!(m.subject_display(), "Hello");
    m.subject = Some("Re: Re: Hello".to_string());
    assert_eq!(m.subject_display(), "Re: Hello");
    m.subject = Some("Hello".to_string());
    assert_eq!(m.subject_display(), "Hello");
}

#[test]
fn date_style_by_age() {
    let mut m = meta();
    assert!(m.date_style(1000).is_none());
    let sent: i64 = 994248000;
    m.dt = Some(Timestamp { utc_seconds: sent, offset_seconds: 0 });
    // within a day: time of day, boundary at exactly one day
    assert_eq!(m.date_style(sent), Some(DateStyle::TimeOfDay));
    assert_eq!(m.date_style(sent + 86399), Some(DateStyle::TimeOfDay));
    assert_eq!(m.date_style(sent + 86400), Some(DateStyle::MonthDay));
    // within twenty-six weeks: month and day
    assert_eq!(m.date_style(sent + 15724799), Some(DateStyle::MonthDay));
    assert_eq!(m.date_style(sent + 15724800), Some(DateStyle::FullDate));
    // a date in the future still shows the time of day
    assert_eq!(m.date_style(sent - 50), Some(DateStyle::TimeOfDay));
}

#[test]
fn labels_sync_or_load() {
    let synced = Label { id: 1, name: "inbox".to_string(), mod_seq: Some(29248804) };
    let fresh = Label { id: 2, name: "archive".to_string(), mod_seq: None };
    assert_eq!(label_action(&synced), LabelAction::Sync);
    assert_eq!(label_action(&fresh), LabelAction::Load);
}
