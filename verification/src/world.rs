//! Per-team learning-event counters of the team world.
//!
//! Each step starts by zeroing every team's voice / help-request / error-talk
//! counters; the decision mechanism then bumps them once per decision. A
//! help request or an error talk is always also a voice event, so a team's
//! help and error-talk counts together never exceed its voice count.

use std::collections::BTreeMap;

use vstd::prelude::*;

use crate::prompts::Behavior;

verus! {

broadcast use {vstd::std_specs::btree::group_btree_axioms, vstd::laws_cmp::group_laws_cmp};

/// Stable team identifier.
pub type TeamId = u32;

/// One individual's decision for the step: agent id, team, whether they
/// voiced, and the learning behavior when they did.
pub type TeamDecision = (u64, TeamId, bool, Option<Behavior>);

/// The count stored for `k` in `m`, zero when `k` has none.
pub open spec fn count_or_zero(m: Map<TeamId, u32>, k: TeamId) -> int {
    if m.contains_key(k) {
        m[k] as int
    } else {
        0
    }
}

/// The three kinds of learning event a team counts.
#[derive(Debug, Clone, Copy, PartialEq, Eq, Structural)]
pub enum TeamEvent {
    /// The individual voiced.
    Voice,
    /// The individual voiced and asked for help.
    Help,
    /// The individual voiced and talked about an error.
    ErrorTalk,
}

/// Whether decision `d` is an event of kind `e`.
pub open spec fn is_event(d: TeamDecision, e: TeamEvent) -> bool {
    match e {
        TeamEvent::Voice => d.2,
        TeamEvent::Help => d.2 && d.3 == Some(Behavior::Help),
        TeamEvent::ErrorTalk => d.2 && d.3 == Some(Behavior::ErrorTalk),
    }
}

/// How many of `ds` are events of kind `e` of team `team`.
pub open spec fn count_events(ds: Seq<TeamDecision>, team: TeamId, e: TeamEvent) -> nat
    decreases ds.len(),
{
    if ds.len() == 0 {
        0
    } else {
        count_events(ds.drop_last(), team, e) + if ds.last().1 == team && is_event(ds.last(), e) {
            1nat
        } else {
            0nat
        }
    }
}

/// `after` is `before` with `count_events(ds, k, e)` added to every team `k`;
/// a team gains an entry exactly when it had none and has such events.
pub open spec fn counts_added(
    before: Map<TeamId, u32>,
    after: Map<TeamId, u32>,
    ds: Seq<TeamDecision>,
    e: TeamEvent,
) -> bool {
    forall|k: TeamId|
        {
            &&& #[trigger] after.contains_key(k) <==> (before.contains_key(k) || count_events(
                ds,
                k,
                e,
            ) > 0)
            &&& count_or_zero(after, k) == count_or_zero(before, k) + count_events(ds, k, e)
        }
}

/// Whether every team of `m` can take its events of kind `e` in `ds` without
/// leaving `u32`.
pub open spec fn counts_fit(m: Map<TeamId, u32>, ds: Seq<TeamDecision>, e: TeamEvent) -> bool {
    forall|k: TeamId| count_or_zero(m, k) + #[trigger] count_events(ds, k, e) <= u32::MAX
}

/// A prefix of `ds` has no more events than `ds`.
proof fn lemma_count_prefix_le(ds: Seq<TeamDecision>, j: int, k: TeamId, e: TeamEvent)
    requires
        0 <= j <= ds.len(),
    ensures
        count_events(ds.take(j), k, e) <= count_events(ds, k, e),
    decreases ds.len(),
{
    if j == ds.len() {
        assert(ds.take(j) =~= ds);
    } else {
        assert(ds.drop_last().take(j) =~= ds.take(j));
        lemma_count_prefix_le(ds.drop_last(), j, k, e);
    }
}

/// One more decision adds at most one event.
proof fn lemma_count_step(ds: Seq<TeamDecision>, i: int, k: TeamId, e: TeamEvent)
    requires
        0 <= i < ds.len(),
    ensures
        count_events(ds.take(i + 1), k, e) == count_events(ds.take(i), k, e) + if ds[i].1 == k
            && is_event(ds[i], e) {
            1nat
        } else {
            0nat
        },
{
    assert(ds.take(i + 1).drop_last() =~= ds.take(i));
}

/// Help requests and error talks of a team together never outnumber its voice
/// events.
proof fn lemma_help_error_le_voice(ds: Seq<TeamDecision>, k: TeamId)
    ensures
        count_events(ds, k, TeamEvent::Help) + count_events(ds, k, TeamEvent::ErrorTalk)
            <= count_events(ds, k, TeamEvent::Voice),
    decreases ds.len(),
{
    if ds.len() > 0 {
        lemma_help_error_le_voice(ds.drop_last(), k);
    }
}

/// Transient per-team event counters (zeroed at each step start).
#[derive(Clone, Debug)]
pub struct TeamCounters {
    /// Voice events per team.
    pub voice_count_by_team: BTreeMap<TeamId, u32>,
    /// Help-request events per team.
    pub help_count_by_team: BTreeMap<TeamId, u32>,
    /// Error-talk events per team.
    pub error_talk_by_team: BTreeMap<TeamId, u32>,
}

impl TeamCounters {
    /// Consistency of the counters: every team with help or error-talk events
    /// has a voice count, and its help plus error-talk events never exceed its
    /// voice events.
    pub open spec fn wf(&self) -> bool {
        forall|k: TeamId|
            (self.help_count_by_team@.contains_key(k) || self.error_talk_by_team@.contains_key(k)
                ==> self.voice_count_by_team@.contains_key(k)) && count_or_zero(
                self.help_count_by_team@,
                k,
            ) + count_or_zero(self.error_talk_by_team@, k) <= #[trigger] count_or_zero(
                self.voice_count_by_team@,
                k,
            )
    }

    /// Counters with no team.
    pub fn new() -> (c: TeamCounters)
        ensures
            c.voice_count_by_team@ == Map::<TeamId, u32>::empty(),
            c.help_count_by_team@ == Map::<TeamId, u32>::empty(),
            c.error_talk_by_team@ == Map::<TeamId, u32>::empty(),
            c.wf(),
    {
        TeamCounters {
            voice_count_by_team: BTreeMap::new(),
            help_count_by_team: BTreeMap::new(),
            error_talk_by_team: BTreeMap::new(),
        }
    }

    /// Zero the counters: afterwards each of the three maps holds exactly the
    /// teams in `team_ids`, each with count 0.
    pub fn reset_counters(&mut self, team_ids: &Vec<TeamId>)
        ensures
            final(self).voice_count_by_team@ == Map::new(|k: TeamId| team_ids@.contains(k), |k: TeamId| 0u32),
            final(self).help_count_by_team@ == Map::new(|k: TeamId| team_ids@.contains(k), |k: TeamId| 0u32),
            final(self).error_talk_by_team@ == Map::new(|k: TeamId| team_ids@.contains(k), |k: TeamId| 0u32),
            final(self).wf(),
    {
        self.voice_count_by_team.clear();
        self.help_count_by_team.clear();
        self.error_talk_by_team.clear();
        let mut i: usize = 0;
        while i < team_ids.len()
            invariant
                i <= team_ids@.len(),
                self.voice_count_by_team@ == Map::new(|k: TeamId| team_ids@.take(i as int).contains(k), |k: TeamId| 0u32),
                self.help_count_by_team@ == Map::new(|k: TeamId| team_ids@.take(i as int).contains(k), |k: TeamId| 0u32),
                self.error_talk_by_team@ == Map::new(|k: TeamId| team_ids@.take(i as int).contains(k), |k: TeamId| 0u32),
            decreases team_ids.len() - i,
        {
            let k = team_ids[i];
            self.voice_count_by_team.insert(k, 0);
            self.help_count_by_team.insert(k, 0);
            self.error_talk_by_team.insert(k, 0);
            proof {
                broadcast use vstd::seq_lib::group_seq_properties;
                assert(team_ids@.take(i + 1) =~= team_ids@.take(i as int).push(k));
                assert(self.voice_count_by_team@ =~= Map::new(|x: TeamId| team_ids@.take(i + 1).contains(x), |x: TeamId| 0u32));
                assert(self.help_count_by_team@ =~= Map::new(|x: TeamId| team_ids@.take(i + 1).contains(x), |x: TeamId| 0u32));
                assert(self.error_talk_by_team@ =~= Map::new(|x: TeamId| team_ids@.take(i + 1).contains(x), |x: TeamId| 0u32));
            }
            i = i + 1;
        }
        assert(team_ids@.take(team_ids@.len() as int) =~= team_ids@);
    }
}

impl TeamCounters {
    /// The number of events of kind `e` counted for team `team` (zero when
    /// the team has no entry).
    pub fn count(&self, e: TeamEvent, team: TeamId) -> (r: u32)
        ensures
            r as int == count_or_zero(
                match e {
                    TeamEvent::Voice => self.voice_count_by_team@,
                    TeamEvent::Help => self.help_count_by_team@,
                    TeamEvent::ErrorTalk => self.error_talk_by_team@,
                },
                team,
            ),
    {
        let m = match e {
            TeamEvent::Voice => &self.voice_count_by_team,
            TeamEvent::Help => &self.help_count_by_team,
            TeamEvent::ErrorTalk => &self.error_talk_by_team,
        };
        match m.get(&team) {
            Some(v) => *v,
            None => 0,
        }
    }
}

/// Add one to the count of team `k` (starting from zero when it has none).
fn bump(m: &mut BTreeMap<TeamId, u32>, k: TeamId)
    requires
        count_or_zero(old(m)@, k) < u32::MAX,
    ensures
        final(m)@ == old(m)@.insert(k, (count_or_zero(old(m)@, k) + 1) as u32),
{
    let cur: u32 = match m.get(&k) {
        Some(v) => *v,
        None => 0,
    };
    m.insert(k, cur + 1);
}

impl TeamCounters {
    /// Count a batch of decisions: each voicing decision is a voice event of
    /// its team; a voicing decision with behavior `Help` is also a
    /// help-request event, and one with `ErrorTalk` an error-talk event.
    /// Silent decisions are not counted.
    pub fn record_decisions(&mut self, updates: &Vec<TeamDecision>)
        requires
            counts_fit(old(self).voice_count_by_team@, updates@, TeamEvent::Voice),
            counts_fit(old(self).help_count_by_team@, updates@, TeamEvent::Help),
            counts_fit(old(self).error_talk_by_team@, updates@, TeamEvent::ErrorTalk),
        ensures
            counts_added(old(self).voice_count_by_team@, final(self).voice_count_by_team@, updates@, TeamEvent::Voice),
            counts_added(old(self).help_count_by_team@, final(self).help_count_by_team@, updates@, TeamEvent::Help),
            counts_added(old(self).error_talk_by_team@, final(self).error_talk_by_team@, updates@, TeamEvent::ErrorTalk),
            old(self).wf() ==> final(self).wf(),
    {
        let ghost v0 = self.voice_count_by_team@;
        let ghost h0 = self.help_count_by_team@;
        let ghost e0 = self.error_talk_by_team@;
        let mut i: usize = 0;
        while i < updates.len()
            invariant
                i <= updates@.len(),
                counts_fit(v0, updates@, TeamEvent::Voice),
                counts_fit(h0, updates@, TeamEvent::Help),
                counts_fit(e0, updates@, TeamEvent::ErrorTalk),
                counts_added(v0, self.voice_count_by_team@, updates@.take(i as int), TeamEvent::Voice),
                counts_added(h0, self.help_count_by_team@, updates@.take(i as int), TeamEvent::Help),
                counts_added(e0, self.error_talk_by_team@, updates@.take(i as int), TeamEvent::ErrorTalk),
            decreases updates.len() - i,
        {
            let (_, team, voiced, beh) = updates[i];
            proof {
                assert forall|k: TeamId, ev: TeamEvent| true implies #[trigger] count_events(updates@.take(i + 1), k, ev)
                    == count_events(updates@.take(i as int), k, ev) + if updates@[i as int].1 == k && is_event(updates@[i as int], ev) { 1nat } else { 0nat } by {
                    lemma_count_step(updates@, i as int, k, ev);
                }
                lemma_count_prefix_le(updates@, i + 1, team, TeamEvent::Voice);
                lemma_count_prefix_le(updates@, i + 1, team, TeamEvent::Help);
                lemma_count_prefix_le(updates@, i + 1, team, TeamEvent::ErrorTalk);
                assert(count_or_zero(v0, team) + count_events(updates@, team, TeamEvent::Voice) <= u32::MAX);
                assert(count_or_zero(h0, team) + count_events(updates@, team, TeamEvent::Help) <= u32::MAX);
                assert(count_or_zero(e0, team) + count_events(updates@, team, TeamEvent::ErrorTalk) <= u32::MAX);
            }
            if voiced {
                bump(&mut self.voice_count_by_team, team);
                match beh {
                    Some(Behavior::Help) => {
                        bump(&mut self.help_count_by_team, team);
                    },
                    Some(Behavior::ErrorTalk) => {
                        bump(&mut self.error_talk_by_team, team);
                    },
                    _ => {},
                }
            }
            i = i + 1;
        }
        assert(updates@.take(updates@.len() as int) =~= updates@);
        proof {
            if old(self).wf() {
                assert forall|k: TeamId| true implies
                    (self.help_count_by_team@.contains_key(k) || self.error_talk_by_team@.contains_key(k)
                        ==> self.voice_count_by_team@.contains_key(k)) && count_or_zero(self.help_count_by_team@, k)
                        + count_or_zero(self.error_talk_by_team@, k) <= #[trigger] count_or_zero(self.voice_count_by_team@, k)
                by {
                    lemma_help_error_le_voice(updates@, k);
                    assert(self.voice_count_by_team@.contains_key(k) <==> (v0.contains_key(k) || count_events(updates@, k, TeamEvent::Voice) > 0));
                    assert(self.help_count_by_team@.contains_key(k) <==> (h0.contains_key(k) || count_events(updates@, k, TeamEvent::Help) > 0));
                    assert(self.error_talk_by_team@.contains_key(k) <==> (e0.contains_key(k) || count_events(updates@, k, TeamEvent::ErrorTalk) > 0));
                    assert(count_or_zero(h0, k) + count_or_zero(e0, k) <= count_or_zero(v0, k));
                }
            }
        }
    }
}

} // verus!
