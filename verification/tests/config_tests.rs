use edmondson_team::text::char_is_whitespace;
use edmondson_team::config::{
    n_individuals, parse_decision_mode, parse_network_kind, DecisionMode, NetworkKind,
};

#[test]
fn parse_decision_mode_variants() {
    assert_eq!(parse_decision_mode("rule").unwrap(), DecisionMode::Rule);
    assert_eq!(parse_decision_mode("LLM").unwrap(), DecisionMode::Llm);
    assert!(parse_decision_mode("bogus").is_err());
}

#[test]
fn is_llm_flag() {
    assert!(!DecisionMode::Rule.is_llm());
    assert!(DecisionMode::Llm.is_llm());
}

#[test]
fn parse_network_kind_variants() {
    assert_eq!(
        parse_network_kind("watts-strogatz").unwrap(),
        NetworkKind::WattsStrogatz
    );
    assert_eq!(parse_network_kind("ER").unwrap(), NetworkKind::ErdosRenyi);
    assert_eq!(
        parse_network_kind("ba").unwrap(),
        NetworkKind::BarabasiAlbert
    );
}

#[test]
fn decision_mode_labels() {
    assert_eq!(DecisionMode::Rule.label(), "rule");
    assert_eq!(DecisionMode::Llm.label(), "llm");
}

#[test]
fn decision_mode_label_roundtrip() {
    for m in [DecisionMode::Rule, DecisionMode::Llm] {
        assert_eq!(parse_decision_mode(m.label()).unwrap(), m);
    }
}

#[test]
fn decision_mode_aliases_trim_and_case() {
    assert_eq!(parse_decision_mode("  Rules\n").unwrap(), DecisionMode::Rule);
    assert_eq!(parse_decision_mode("LOGIT").unwrap(), DecisionMode::Rule);
    assert_eq!(parse_decision_mode("\tOllama ").unwrap(), DecisionMode::Llm);
    assert_eq!(parse_decision_mode("openai").unwrap(), DecisionMode::Llm);
    // Unicode whitespace (ideographic space) is trimmed like str::trim does.
    assert_eq!(parse_decision_mode("\u{3000}llm\u{2003}").unwrap(), DecisionMode::Llm);
}

#[test]
fn decision_mode_error_message() {
    assert_eq!(
        parse_decision_mode(" bogus ").unwrap_err(),
        "invalid decision-mode: \" bogus \" (rule / llm)"
    );
    // Inner whitespace is not removed.
    assert!(parse_decision_mode("r ule").is_err());
    assert!(parse_decision_mode("").is_err());
}

#[test]
fn network_kind_aliases() {
    assert_eq!(parse_network_kind("WS").unwrap(), NetworkKind::WattsStrogatz);
    assert_eq!(parse_network_kind("watts_strogatz").unwrap(), NetworkKind::WattsStrogatz);
    assert_eq!(parse_network_kind(" Small-World ").unwrap(), NetworkKind::WattsStrogatz);
    assert_eq!(parse_network_kind("erdos-renyi").unwrap(), NetworkKind::ErdosRenyi);
    assert_eq!(parse_network_kind("Erdos_Renyi").unwrap(), NetworkKind::ErdosRenyi);
    assert_eq!(parse_network_kind("barabasi-albert").unwrap(), NetworkKind::BarabasiAlbert);
    assert_eq!(parse_network_kind("scale-free").unwrap(), NetworkKind::BarabasiAlbert);
}

#[test]
fn network_kind_error_message() {
    assert_eq!(
        parse_network_kind("ring").unwrap_err(),
        "invalid network kind: \"ring\" (watts-strogatz / erdos-renyi / barabasi-albert)"
    );
    assert!(parse_network_kind("barabasi_albert").is_err());
}

#[test]
fn default_n_individuals() {
    assert_eq!(n_individuals(90, 8), 90 * 8);
}

#[test]
fn n_individuals_saturates() {
    assert_eq!(n_individuals(usize::MAX, 2), usize::MAX);
    assert_eq!(n_individuals(0, usize::MAX), 0);
    assert_eq!(n_individuals(3, 0), 0);
}

#[test]
fn whitespace_set_matches_std() {
    for u in 0u32..=0x3100 {
        if let Some(c) = char::from_u32(u) {
            assert_eq!(char_is_whitespace(c), c.is_whitespace(), "U+{u:04X}");
        }
    }
    for c in ['\u{feff}', '\u{200b}', 'x', '\u{10ffff}'] {
        assert_eq!(char_is_whitespace(c), c.is_whitespace());
    }
}
