use mailsync::correlator::{MissingField, PushOutcome, ResponseAccumulator};
use mailsync::flags::Flag;
use mailsync::fragment::{AttributeFragment, Envelope, EnvelopeAddress, KindConfig};

fn envelope(mid: Option<&str>, date: Option<&str>, subject: Option<&[u8]>) -> AttributeFragment {
    AttributeFragment::EnvelopeRecord(Envelope {
        message_id: mid.map(|s| s.as_bytes().to_vec()),
        date: date.map(|s| s.as_bytes().to_vec()),
        subject: subject.map(|b| b.to_vec()),
        sender: Some(EnvelopeAddress {
            name: Some(b"Ann Author".to_vec()),
            mailbox: Some(b"ann".to_vec()),
            host: Some(b"example.org".to_vec()),
        }),
    })
}

#[test]
fn interleaved_numbers_complete_exactly_once() {
    let mut acc = ResponseAccumulator::with_kinds(KindConfig::envelope_fetch());
    let mut completed: Vec<u32> = Vec::new();
    let stream: Vec<(u32, AttributeFragment)> = vec![
        (1, AttributeFragment::UniqueId(101)),
        (2, AttributeFragment::UniqueId(102)),
        (2, AttributeFragment::ChangeVersion(92)),
        (1, AttributeFragment::ChangeVersion(91)),
        (1, AttributeFragment::Flags(vec!["\\Seen".to_string()])),
        (2, AttributeFragment::Flags(vec![])),
        (2, envelope(Some("<b@x>"), None, None)),
        (1, envelope(Some("<a@x>"), None, None)),
    ];
    for (seq, frag) in stream {
        let (next, outcome) = acc.push(seq, frag);
        acc = next;
        match outcome {
            PushOutcome::Pending => {}
            PushOutcome::Completed(meta, _) => completed.push(meta.seq),
            other => panic!("unexpected outcome {:?}", other),
        }
    }
    assert_eq!(completed, vec![2, 1]);
}

#[test]
fn completed_record_carries_extracted_fields() {
    let mut acc = ResponseAccumulator::with_kinds(KindConfig::envelope_fetch());
    let frags: Vec<AttributeFragment> = vec![
        AttributeFragment::UniqueId(7),
        AttributeFragment::ChangeVersion(70),
        AttributeFragment::Flags(vec![
            "\\Seen".to_string(),
            "Junk".to_string(),
            "$NewThing".to_string(),
        ]),
        envelope(
            Some("<id-7@example.org>"),
            Some("Wed, 4 Jul 2001 12:00:00 GMT"),
            Some(b"Hello"),
        ),
    ];
    let mut result = None;
    for frag in frags {
        let (next, outcome) = acc.push(9, frag);
        acc = next;
        if let PushOutcome::Completed(meta, notes) = outcome {
            result = Some((meta, notes));
        }
    }
    let (meta, notes) = result.expect("record must complete");
    assert_eq!(meta.seq, 9);
    assert_eq!(meta.uid, 7);
    assert_eq!(meta.mod_seq, 70);
    assert_eq!(meta.flags, vec![Flag::Seen]);
    assert_eq!(meta.mid.as_deref(), Some("<id-7@example.org>"));
    assert_eq!(meta.subject.as_deref(), Some("Hello"));
    assert_eq!(meta.sender.as_deref(), Some("Ann Author <ann@example.org>"));
    let dt = meta.dt.expect("date must normalise");
    assert_eq!(dt.utc_seconds, 994248000);
    assert_eq!(dt.offset_seconds, 0);
    assert_eq!(notes.unknown_flags, vec!["$NewThing".to_string()]);
    assert!(notes.unparsed_date.is_none());
}

#[test]
fn invalid_text_encoding_is_replaced_not_rejected() {
    let mut acc = ResponseAccumulator::with_kinds(KindConfig::envelope_fetch());
    let frags: Vec<AttributeFragment> = vec![
        AttributeFragment::UniqueId(1),
        AttributeFragment::ChangeVersion(1),
        AttributeFragment::Flags(vec![]),
        envelope(None, None, Some(b"caf\xff")),
    ];
    let mut result = None;
    for frag in frags {
        let (next, outcome) = acc.push(1, frag);
        acc = next;
        if let PushOutcome::Completed(meta, _) = outcome {
            result = Some(meta);
        }
    }
    let meta = result.unwrap();
    assert_eq!(meta.subject.as_deref(), Some("caf\u{FFFD}"));
}

#[test]
fn unparsable_date_leaves_record_date_absent() {
    let mut acc = ResponseAccumulator::with_kinds(KindConfig::envelope_fetch());
    let frags: Vec<AttributeFragment> = vec![
        AttributeFragment::UniqueId(1),
        AttributeFragment::ChangeVersion(1),
        AttributeFragment::Flags(vec![]),
        envelope(None, Some("not a date at all"), None),
    ];
    let mut result = None;
    for frag in frags {
        let (next, outcome) = acc.push(1, frag);
        acc = next;
        if let PushOutcome::Completed(meta, notes) = outcome {
            result = Some((meta, notes));
        }
    }
    let (meta, notes) = result.unwrap();
    assert!(meta.dt.is_none());
    assert_eq!(notes.unparsed_date.as_deref(), Some("not a date at all"));
}

#[test]
fn missing_mandatory_fields_are_hard_errors() {
    let kinds = KindConfig {
        unique_id: false,
        change_version: false,
        date: false,
        flags: true,
        envelope: true,
        raw: false,
    };
    let mut acc = ResponseAccumulator::with_kinds(kinds);
    let (next, outcome) = acc.push(3, AttributeFragment::Flags(vec![]));
    acc = next;
    assert!(matches!(outcome, PushOutcome::Pending));
    let (_, outcome) = acc.push(3, envelope(None, None, None));
    match outcome {
        PushOutcome::Malformed(seq, missing) => {
            assert_eq!(seq, 3);
            assert_eq!(missing, MissingField::UniqueId);
        }
        other => panic!("expected a malformed-reply report, got {:?}", other),
    }
}

#[test]
fn missing_change_version_is_reported_as_such() {
    let kinds = KindConfig {
        unique_id: true,
        change_version: false,
        date: false,
        flags: true,
        envelope: false,
        raw: false,
    };
    let mut acc = ResponseAccumulator::with_kinds(kinds);
    let (next, _) = acc.push(4, AttributeFragment::UniqueId(40));
    acc = next;
    let (_, outcome) = acc.push(4, AttributeFragment::Flags(vec![]));
    match outcome {
        PushOutcome::Malformed(seq, missing) => {
            assert_eq!(seq, 4);
            assert_eq!(missing, MissingField::ChangeVersion);
        }
        other => panic!("expected a malformed-reply report, got {:?}", other),
    }
}

#[test]
fn fragments_after_completion_are_anomalous_and_never_reemit() {
    let kinds = KindConfig {
        unique_id: true,
        change_version: true,
        date: false,
        flags: false,
        envelope: false,
        raw: false,
    };
    let mut acc = ResponseAccumulator::with_kinds(kinds);
    let (next, _) = acc.push(5, AttributeFragment::UniqueId(50));
    acc = next;
    let (next, outcome) = acc.push(5, AttributeFragment::ChangeVersion(500));
    acc = next;
    assert!(matches!(outcome, PushOutcome::Completed(_, _)));
    // the peer resends: the buffer no longer exists and nothing is merged
    for _ in 0..3 {
        let (next, outcome) = acc.push(5, AttributeFragment::UniqueId(50));
        acc = next;
        match outcome {
            PushOutcome::Anomalous(seq) => assert_eq!(seq, 5),
            other => panic!("expected an anomaly report, got {:?}", other),
        }
    }
    // even a full second round of countable fragments must not re-trigger
    let (_, outcome) = acc.push(5, AttributeFragment::ChangeVersion(501));
    assert!(matches!(outcome, PushOutcome::Anomalous(5)));
}

#[test]
fn incomplete_number_emits_nothing() {
    let mut acc = ResponseAccumulator::new();
    let frags: Vec<AttributeFragment> = vec![
        AttributeFragment::UniqueId(1),
        AttributeFragment::ChangeVersion(2),
        AttributeFragment::Flags(vec!["\\Seen".to_string()]),
        AttributeFragment::InternalOrHeaderDate("4 Jul 2001 12:00 CET".to_string()),
    ];
    for frag in frags {
        let (next, outcome) = acc.push(11, frag);
        acc = next;
        assert!(matches!(outcome, PushOutcome::Pending));
    }
    // session ends here; the buffered state is discarded, nothing was emitted
}

#[test]
fn payload_kinds_do_not_count_toward_completion() {
    let kinds = KindConfig {
        unique_id: true,
        change_version: true,
        date: false,
        flags: false,
        envelope: false,
        raw: false,
    };
    let mut acc = ResponseAccumulator::with_kinds(kinds);
    let (next, outcome) = acc.push(8, AttributeFragment::RawContent(b"body".to_vec()));
    acc = next;
    assert!(matches!(outcome, PushOutcome::Pending));
    let (next, outcome) = acc.push(8, AttributeFragment::UniqueId(80));
    acc = next;
    assert!(matches!(outcome, PushOutcome::Pending));
    let (_, outcome) = acc.push(8, AttributeFragment::ChangeVersion(800));
    match outcome {
        PushOutcome::Completed(meta, _) => {
            assert_eq!(meta.uid, 80);
            assert_eq!(meta.raw.as_deref(), Some(b"body".as_slice()));
        }
        other => panic!("expected completion, got {:?}", other),
    }
}

#[test]
fn absent_sender_parts_are_formatted_empty() {
    let mut acc = ResponseAccumulator::with_kinds(KindConfig::envelope_fetch());
    let frags: Vec<AttributeFragment> = vec![
        AttributeFragment::UniqueId(1),
        AttributeFragment::ChangeVersion(1),
        AttributeFragment::Flags(vec![]),
        AttributeFragment::EnvelopeRecord(Envelope {
            message_id: None,
            date: None,
            subject: None,
            sender: Some(EnvelopeAddress { name: None, mailbox: None, host: None }),
        }),
    ];
    let mut result = None;
    for frag in frags {
        let (next, outcome) = acc.push(4, frag);
        acc = next;
        if let PushOutcome::Completed(meta, _) = outcome {
            result = Some(meta);
        }
    }
    assert_eq!(result.unwrap().sender.as_deref(), Some(" <@>"));
}

#[test]
fn full_fetch_counts_five_kinds() {
    let mut acc = ResponseAccumulator::new();
    let frags: Vec<AttributeFragment> = vec![
        AttributeFragment::UniqueId(21),
        AttributeFragment::ChangeVersion(210),
        AttributeFragment::InternalOrHeaderDate("Wed, 4 Jul 2001 12:00:00 GMT".to_string()),
        AttributeFragment::Flags(vec!["\\Answered".to_string()]),
        AttributeFragment::RawContent(b"raw bytes".to_vec()),
    ];
    let mut result = None;
    for frag in frags {
        let (next, outcome) = acc.push(2, frag);
        acc = next;
        if let PushOutcome::Completed(meta, _) = outcome {
            result = Some(meta);
        }
    }
    let meta = result.expect("five countable fragments must complete");
    assert_eq!(meta.uid, 21);
    assert_eq!(meta.mod_seq, 210);
    assert_eq!(meta.flags, vec![Flag::Answered]);
    assert_eq!(meta.dt.unwrap().utc_seconds, 994248000);
    assert_eq!(meta.raw.as_deref(), Some(b"raw bytes".as_slice()));
}
