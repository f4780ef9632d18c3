use edmondson_team::config::NetworkKind;
use edmondson_team::simulation::{
    hypotheses_supported, network_plan, Convergence, NetworkPlan, VoiceTally, CONVERGENCE_WINDOW,
    VOICE_BURN_IN,
};

#[test]
fn convergence_after_three_stable_steps() {
    let mut c = Convergence::new();
    let flags = [true, true, false, true, true, true, false, true];
    for (t, &f) in flags.iter().enumerate() {
        c.observe(f, t as u64 + 1);
    }
    assert_eq!(CONVERGENCE_WINDOW, 3);
    // Steps 4, 5, 6 are the first three consecutive stable steps.
    assert_eq!(c.convergence_step, Some(6));
}

#[test]
fn convergence_never_reached() {
    let mut c = Convergence::new();
    for t in 1..=10u64 {
        c.observe(t % 3 != 0, t);
    }
    assert_eq!(c.convergence_step, None);
    assert!(c.stable_streak < 3);
}

#[test]
fn network_plan_degrees() {
    assert_eq!(network_plan(NetworkKind::WattsStrogatz, 6, 8), NetworkPlan::WattsStrogatz { k: 6 });
    assert_eq!(network_plan(NetworkKind::WattsStrogatz, 6, 4), NetworkPlan::WattsStrogatz { k: 3 });
    assert_eq!(network_plan(NetworkKind::WattsStrogatz, 6, 1), NetworkPlan::WattsStrogatz { k: 2 });
    assert_eq!(network_plan(NetworkKind::WattsStrogatz, 6, 0), NetworkPlan::WattsStrogatz { k: 2 });
    assert_eq!(network_plan(NetworkKind::WattsStrogatz, 0, 8), NetworkPlan::WattsStrogatz { k: 2 });
    assert_eq!(network_plan(NetworkKind::ErdosRenyi, 6, 8), NetworkPlan::ErdosRenyi);
    assert_eq!(network_plan(NetworkKind::BarabasiAlbert, 0, 8), NetworkPlan::BarabasiAlbert { m: 1 });
    assert_eq!(network_plan(NetworkKind::BarabasiAlbert, 4, 8), NetworkPlan::BarabasiAlbert { m: 4 });
}

#[test]
fn hypotheses_tally() {
    assert_eq!(hypotheses_supported(true, true, true, true, true), 6);
    assert_eq!(hypotheses_supported(true, false, false, false, false), 2);
    assert_eq!(hypotheses_supported(false, true, false, true, false), 2);
    assert_eq!(hypotheses_supported(false, false, false, false, false), 0);
}

#[test]
fn voice_tally_skips_burn_in_and_counts() {
    assert_eq!(VOICE_BURN_IN, 2);
    let mut v = VoiceTally::new();
    v.record(7, 3, true, 0);
    v.record(7, 3, true, 1);
    assert!(v.by_agent.is_empty());
    v.record(7, 3, true, 2);
    v.record(7, 4, false, 3);
    v.record(7, 3, true, 4);
    v.record(8, 1, false, 4);
    assert_eq!(v.by_agent[&7], (2, 3, 3));
    assert_eq!(v.by_agent[&8], (0, 1, 1));
    for &(voiced, observed, _) in v.by_agent.values() {
        assert!(voiced <= observed);
    }
}
