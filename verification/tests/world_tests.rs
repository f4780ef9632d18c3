use edmondson_team::prompts::Behavior;
use edmondson_team::world::{TeamCounters, TeamEvent};

#[test]
fn reset_counters_zeroes_all_teams() {
    let mut w = TeamCounters::new();
    w.reset_counters(&vec![0]);
    w.voice_count_by_team.insert(0, 5);
    w.reset_counters(&vec![0]);
    assert_eq!(w.voice_count_by_team[&0], 0);
}

#[test]
fn reset_keeps_exactly_the_given_teams() {
    let mut w = TeamCounters::new();
    w.voice_count_by_team.insert(9, 4);
    w.help_count_by_team.insert(9, 1);
    w.reset_counters(&vec![0, 2, 5]);
    for m in [&w.voice_count_by_team, &w.help_count_by_team, &w.error_talk_by_team] {
        assert_eq!(m.keys().copied().collect::<Vec<_>>(), vec![0, 2, 5]);
        assert!(m.values().all(|&c| c == 0));
    }
}

#[test]
fn record_decisions_counts_events() {
    let mut w = TeamCounters::new();
    w.reset_counters(&vec![0, 1]);
    let updates = vec![
        (0u64, 0u32, true, Some(Behavior::Speak)),
        (1, 0, true, Some(Behavior::Help)),
        (2, 0, false, None),
        (3, 1, true, Some(Behavior::ErrorTalk)),
        (4, 1, true, Some(Behavior::Help)),
        (5, 1, false, Some(Behavior::Help)),
        (6, 7, true, None),
    ];
    w.record_decisions(&updates);
    assert_eq!(w.count(TeamEvent::Voice, 0), 2);
    assert_eq!(w.count(TeamEvent::Help, 0), 1);
    assert_eq!(w.count(TeamEvent::ErrorTalk, 0), 0);
    assert_eq!(w.count(TeamEvent::Voice, 1), 2);
    assert_eq!(w.count(TeamEvent::Help, 1), 1);
    assert_eq!(w.count(TeamEvent::ErrorTalk, 1), 1);
    // A team not reset gains a voice entry, but no help / error entry.
    assert_eq!(w.voice_count_by_team[&7], 1);
    assert!(!w.help_count_by_team.contains_key(&7));
    assert_eq!(w.count(TeamEvent::Help, 7), 0);
    assert_eq!(w.count(TeamEvent::Voice, 3), 0);
    // Help plus error talk never exceed voice.
    for (&k, &v) in &w.voice_count_by_team {
        assert!(w.count(TeamEvent::Help, k) + w.count(TeamEvent::ErrorTalk, k) <= v);
    }
}
