use edmondson_team::prompts::{
    extract_json_object, finalise_verdict, verdict_for_reply, verdict_from_reads, Behavior,
    RawDecision, VoiceVerdict,
};

/// The reply's first object, read as a generic JSON value (no typed decoding).
fn parse_voice_decision(text: &str) -> VoiceVerdict {
    verdict_for_reply(extract_json_object(text), None)
}

#[test]
fn parses_canonical_voice() {
    let v = parse_voice_decision(r#"{"decision": "voice", "behavior": "error_talk"}"#);
    assert!(v.voiced);
    assert_eq!(v.behavior, Some(Behavior::ErrorTalk));
    assert!(!v.parse_failed);
}

#[test]
fn parses_silence() {
    let v = parse_voice_decision(r#"{"decision":"silence","behavior":null}"#);
    assert!(!v.voiced);
    assert_eq!(v.behavior, None);
    assert!(!v.parse_failed);
}

#[test]
fn voice_without_behavior_defaults_to_speak() {
    let v = parse_voice_decision(r#"{"decision":"voice"}"#);
    assert!(v.voiced);
    assert_eq!(v.behavior, Some(Behavior::Speak));
}

#[test]
fn tolerates_surrounding_text() {
    let v = parse_voice_decision(r#"Sure: {"decision":"voice","behavior":"help"}. Done."#);
    assert!(v.voiced);
    assert_eq!(v.behavior, Some(Behavior::Help));
}

#[test]
fn unknown_decision_falls_back() {
    let v = parse_voice_decision(r#"{"decision":"???"}"#);
    assert!(v.parse_failed);
    assert!(!v.voiced);
}

#[test]
fn no_json_falls_back() {
    let v = parse_voice_decision("no json here");
    assert!(v.parse_failed);
    assert!(!v.voiced);
}

#[test]
fn behavior_labels_roundtrip() {
    for b in [Behavior::Speak, Behavior::Help, Behavior::ErrorTalk] {
        assert_eq!(Behavior::parse(b.label()), Some(b));
    }
    assert_eq!(Behavior::Speak.label(), "speak");
    assert_eq!(Behavior::Help.label(), "help");
    assert_eq!(Behavior::ErrorTalk.label(), "error_talk");
}

#[test]
fn behavior_aliases() {
    assert_eq!(Behavior::parse(" Voice "), Some(Behavior::Speak));
    assert_eq!(Behavior::parse("FEEDBACK"), Some(Behavior::Speak));
    assert_eq!(Behavior::parse("ask_help"), Some(Behavior::Help));
    assert_eq!(Behavior::parse("Help_Seeking"), Some(Behavior::Help));
    assert_eq!(Behavior::parse("error"), Some(Behavior::ErrorTalk));
    assert_eq!(Behavior::parse("discuss_error"), Some(Behavior::ErrorTalk));
    assert_eq!(Behavior::parse("shout"), None);
    assert_eq!(Behavior::parse(""), None);
}

#[test]
fn extract_first_balanced_object() {
    assert_eq!(
        extract_json_object(r#"x {"a": {"b": 1}} y {"c": 2}"#),
        Some(r#"{"a": {"b": 1}}"#.to_string())
    );
    // Braces inside string literals do not count, escaped quotes stay inside.
    assert_eq!(
        extract_json_object(r#"{"a": "}\"{"} tail"#),
        Some(r#"{"a": "}\"{"}"#.to_string())
    );
    assert_eq!(extract_json_object("{ unbalanced"), None);
    assert_eq!(extract_json_object("no braces"), None);
    // Non-ASCII text before and inside the object.
    assert_eq!(
        extract_json_object("ψ→ {\"d\": \"é\"} ok"),
        Some("{\"d\": \"é\"}".to_string())
    );
}

#[test]
fn finalise_verdict_cases() {
    let raw = RawDecision {
        decision: Some("  Speak_Up ".to_string()),
        behavior: Some("nonsense".to_string()),
    };
    assert_eq!(
        finalise_verdict(raw),
        VoiceVerdict { voiced: true, behavior: Some(Behavior::Speak), parse_failed: false }
    );
    let raw = RawDecision { decision: Some("withhold".to_string()), behavior: Some("help".to_string()) };
    assert_eq!(
        finalise_verdict(raw),
        VoiceVerdict { voiced: false, behavior: None, parse_failed: false }
    );
    let raw = RawDecision { decision: None, behavior: Some("help".to_string()) };
    assert_eq!(
        finalise_verdict(raw),
        VoiceVerdict { voiced: false, behavior: None, parse_failed: true }
    );
}

#[test]
fn json_field_reading() {
    // Non-string decision is a parse failure.
    let v = parse_voice_decision(r#"{"decision": 1, "behavior": "help"}"#);
    assert!(v.parse_failed && !v.voiced);
    // Escapes are decoded before matching.
    let v = parse_voice_decision(r#"{"decision": "voi\u0063e", "behavior": "h\u0065lp"}"#);
    assert_eq!(v, VoiceVerdict { voiced: true, behavior: Some(Behavior::Help), parse_failed: false });
    // Duplicate keys: the last wins.
    let v = parse_voice_decision(r#"{"decision":"voice","decision":"silent"}"#);
    assert_eq!(v, VoiceVerdict { voiced: false, behavior: None, parse_failed: false });
    // Balanced but invalid JSON falls back.
    let v = parse_voice_decision(r#"{decision: voice}"#);
    assert!(v.parse_failed && !v.voiced);
    // Non-string behavior on a voice decision defaults to speak.
    let v = parse_voice_decision(r#"{"decision":"VOICE","behavior":3}"#);
    assert_eq!(v, VoiceVerdict { voiced: true, behavior: Some(Behavior::Speak), parse_failed: false });
}

#[test]
fn typed_decision_decides_when_given() {
    // The object holds a number outside the f64 range in an unrelated field:
    // the typed decoding skips it, the generic JSON reading rejects it.
    let obj = r#"{"decision":"voice","n":1e400}"#;
    let typed = RawDecision { decision: Some("voice".to_string()), behavior: None };
    assert_eq!(
        verdict_for_reply(Some(obj.to_string()), Some(typed)),
        VoiceVerdict { voiced: true, behavior: Some(Behavior::Speak), parse_failed: false }
    );
    assert_eq!(
        verdict_for_reply(Some(obj.to_string()), None),
        VoiceVerdict { voiced: false, behavior: None, parse_failed: true }
    );
    // No object: fallback, whatever is passed as typed.
    let typed = RawDecision { decision: Some("voice".to_string()), behavior: None };
    assert_eq!(
        verdict_for_reply(None, Some(typed)),
        VoiceVerdict { voiced: false, behavior: None, parse_failed: true }
    );
}

#[test]
fn verdict_from_generic_reads() {
    assert_eq!(
        verdict_from_reads(None, Some(Some("help".to_string()))),
        VoiceVerdict { voiced: false, behavior: None, parse_failed: true }
    );
    assert_eq!(
        verdict_from_reads(Some(Some("Voice".to_string())), None),
        VoiceVerdict { voiced: true, behavior: Some(Behavior::Speak), parse_failed: false }
    );
    assert_eq!(
        verdict_from_reads(Some(Some("voice".to_string())), Some(Some("error".to_string()))),
        VoiceVerdict { voiced: true, behavior: Some(Behavior::ErrorTalk), parse_failed: false }
    );
    assert_eq!(
        verdict_from_reads(Some(None), Some(None)),
        VoiceVerdict { voiced: false, behavior: None, parse_failed: true }
    );
}
