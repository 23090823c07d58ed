use mailsync::flags::{classify, classify_outcome, Flag, FlagOutcome};

#[test]
fn recognized_tokens() {
    assert_eq!(classify("\\Seen"), Some(Flag::Seen));
    assert_eq!(classify("\\Answered"), Some(Flag::Answered));
    assert_eq!(classify("\\Flagged"), Some(Flag::Flagged));
}

#[test]
fn deny_listed_token_is_absent_without_error() {
    assert_eq!(classify("Junk"), None);
    assert_eq!(classify_outcome("Junk"), FlagOutcome::Suppressed);
    assert_eq!(classify_outcome("$Phishing"), FlagOutcome::Suppressed);
    assert_eq!(classify_outcome("NonJunk"), FlagOutcome::Suppressed);
    assert_eq!(classify_outcome("$MDNSent"), FlagOutcome::Suppressed);
    assert_eq!(classify_outcome("$Forwarded"), FlagOutcome::Suppressed);
}

#[test]
fn unknown_token_is_dropped_with_diagnostic() {
    assert_eq!(classify("$SomeNewMarker"), None);
    assert_eq!(classify_outcome("$SomeNewMarker"), FlagOutcome::Unrecognized);
}

#[test]
fn case_and_slash_matter() {
    assert_eq!(classify("Seen"), None);
    assert_eq!(classify("\\seen"), None);
}

#[test]
fn from_str_and_from_agree() {
    assert_eq!(Flag::from_str("\\Seen"), Some(Flag::Seen));
    assert_eq!(Flag::from("\\Answered"), Flag::Answered);
}
