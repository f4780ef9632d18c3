//! Selectors of the simulation configuration that carry no numeric weights:
//! the voice-decision mechanism switch and the within-team network family,
//! with their command-line label parsers.

use vstd::prelude::*;

use crate::text::{chars_equal, label_key, label_key_of, lemma_plain_label_key};

verus! {

/// Decision-mechanism selector (mutually exclusive).
///
/// The driver wires exactly one voice-decision mechanism:
/// - `Rule` selects the logit decision (default; zero LLM calls, deterministic)
/// - `Llm` selects the LLM-driven decision
#[derive(Debug, Clone, Copy, PartialEq, Eq, Structural)]
pub enum DecisionMode {
    /// Logit decision; default, bit-deterministic, no LLM calls.
    Rule,
    /// LLM-driven decision (ablation).
    Llm,
}

/// The stable snake_case label of a decision mode.
pub open spec fn decision_mode_label(m: DecisionMode) -> Seq<char> {
    match m {
        DecisionMode::Rule => "rule"@,
        DecisionMode::Llm => "llm"@,
    }
}

impl DecisionMode {
    /// Stable snake_case label (CSV / JSON / directory friendly).
    pub fn label(&self) -> (r: &'static str)
        ensures
            r@ == decision_mode_label(*self),
    {
        match self {
            DecisionMode::Rule => "rule",
            DecisionMode::Llm => "llm",
        }
    }

    /// Whether this mode reaches the LLM layer.
    pub fn is_llm(&self) -> (r: bool)
        ensures
            r == (*self == DecisionMode::Llm),
    {
        match self {
            DecisionMode::Rule => false,
            DecisionMode::Llm => true,
        }
    }
}

/// The decision mode that a canonical (trimmed, lower-cased) label names.
pub open spec fn decision_mode_of_key(key: Seq<char>) -> Option<DecisionMode> {
    if key == "rule"@ || key == "rules"@ || key == "logit"@ {
        Some(DecisionMode::Rule)
    } else if key == "llm"@ || key == "ollama"@ || key == "openai"@ {
        Some(DecisionMode::Llm)
    } else {
        None
    }
}

/// The error message for an unrecognised decision-mode label `s`.
pub open spec fn decision_mode_error(s: Seq<char>) -> Seq<char> {
    "invalid decision-mode: \""@ + s + "\" (rule / llm)"@
}

/// Parse a [`DecisionMode`] from a CLI string: surrounding whitespace and ASCII
/// case are ignored; `rule`/`rules`/`logit` and `llm`/`ollama`/`openai` are
/// accepted.
pub fn parse_decision_mode(s: &str) -> (r: Result<DecisionMode, String>)
    ensures
        match r {
            Ok(m) => decision_mode_of_key(label_key(s@)) == Some(m),
            Err(e) => decision_mode_of_key(label_key(s@)) is None && e@ == decision_mode_error(s@),
        },
{
    let key = label_key_of(s);
    if chars_equal(&key, "rule") || chars_equal(&key, "rules") || chars_equal(&key, "logit") {
        Ok(DecisionMode::Rule)
    } else if chars_equal(&key, "llm") || chars_equal(&key, "ollama") || chars_equal(
        &key,
        "openai",
    ) {
        Ok(DecisionMode::Llm)
    } else {
        let mut msg = String::new();
        msg.append("invalid decision-mode: \"");
        msg.append(s);
        msg.append("\" (rule / llm)");
        Err(msg)
    }
}

/// Total number of individuals of `n_teams` teams of `team_size`: their
/// product, saturated at `usize::MAX`.
pub fn n_individuals(n_teams: usize, team_size: usize) -> (r: usize)
    ensures
        r == if n_teams * team_size <= usize::MAX {
            (n_teams * team_size) as usize
        } else {
            usize::MAX
        },
{
    match n_teams.checked_mul(team_size) {
        Some(n) => n,
        None => usize::MAX,
    }
}

/// Within-team network family.
#[derive(Debug, Clone, Copy, PartialEq, Eq, Structural)]
pub enum NetworkKind {
    /// Watts-Strogatz small-world (default).
    WattsStrogatz,
    /// Erdos-Renyi G(n,p) (sensitivity).
    ErdosRenyi,
    /// Barabasi-Albert preferential attachment (sensitivity).
    BarabasiAlbert,
}

/// The network family that a canonical (trimmed, lower-cased) label names.
pub open spec fn network_kind_of_key(key: Seq<char>) -> Option<NetworkKind> {
    if key == "ws"@ || key == "watts-strogatz"@ || key == "watts_strogatz"@ || key
        == "small-world"@ {
        Some(NetworkKind::WattsStrogatz)
    } else if key == "er"@ || key == "erdos-renyi"@ || key == "erdos_renyi"@ {
        Some(NetworkKind::ErdosRenyi)
    } else if key == "ba"@ || key == "barabasi-albert"@ || key == "scale-free"@ {
        Some(NetworkKind::BarabasiAlbert)
    } else {
        None
    }
}

/// The error message for an unrecognised network-kind label `s`.
pub open spec fn network_kind_error(s: Seq<char>) -> Seq<char> {
    "invalid network kind: \""@ + s + "\" (watts-strogatz / erdos-renyi / barabasi-albert)"@
}

/// Parse a [`NetworkKind`] from a CLI string: surrounding whitespace and ASCII
/// case are ignored.
pub fn parse_network_kind(s: &str) -> (r: Result<NetworkKind, String>)
    ensures
        match r {
            Ok(k) => network_kind_of_key(label_key(s@)) == Some(k),
            Err(e) => network_kind_of_key(label_key(s@)) is None && e@ == network_kind_error(s@),
        },
{
    let key = label_key_of(s);
    if chars_equal(&key, "ws") || chars_equal(&key, "watts-strogatz") || chars_equal(
        &key,
        "watts_strogatz",
    ) || chars_equal(&key, "small-world") {
        Ok(NetworkKind::WattsStrogatz)
    } else if chars_equal(&key, "er") || chars_equal(&key, "erdos-renyi") || chars_equal(
        &key,
        "erdos_renyi",
    ) {
        Ok(NetworkKind::ErdosRenyi)
    } else if chars_equal(&key, "ba") || chars_equal(&key, "barabasi-albert") || chars_equal(
        &key,
        "scale-free",
    ) {
        Ok(NetworkKind::BarabasiAlbert)
    } else {
        let mut msg = String::new();
        msg.append("invalid network kind: \"");
        msg.append(s);
        msg.append("\" (watts-strogatz / erdos-renyi / barabasi-albert)");
        Err(msg)
    }
}

/// Parsing a decision mode's own label gives that mode back.
pub proof fn lemma_decision_mode_label_roundtrip(m: DecisionMode)
    ensures
        decision_mode_of_key(label_key(decision_mode_label(m))) == Some(m),
{
    reveal_strlit("rule");
    reveal_strlit("rules");
    reveal_strlit("logit");
    reveal_strlit("llm");
    reveal_strlit("ollama");
    reveal_strlit("openai");
    let l = decision_mode_label(m);
    lemma_plain_label_key(l);
}

} // verus!
