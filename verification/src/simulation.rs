//! Run-driver decisions that involve no numeric weights: convergence
//! tracking, the within-team network generator and its degree, and the tally
//! of supported hypotheses in the anchor report.

use std::collections::BTreeMap;

use vstd::prelude::*;

use crate::config::NetworkKind;

verus! {

broadcast use {vstd::std_specs::btree::group_btree_axioms, vstd::laws_cmp::group_laws_cmp};

// ------------------------------------------------------------------------- //
// Convergence tracking
// ------------------------------------------------------------------------- //

/// Number of consecutive stable steps (largest team-mean change below the
/// tolerance) after which the run counts as converged.
pub const CONVERGENCE_WINDOW: u64 = 3;

/// Convergence state of a run: the current streak of stable steps, and the
/// step at which the run converged, once it has.
#[derive(Debug, Clone, Copy, PartialEq, Eq, Structural)]
pub struct Convergence {
    pub stable_streak: u64,
    pub convergence_step: Option<u64>,
}

/// The state after observing step `t`, stable or not. Once converged the
/// state no longer changes.
pub open spec fn observed(c: Convergence, stable: bool, t: u64) -> Convergence {
    if c.convergence_step is Some {
        c
    } else if stable {
        Convergence {
            stable_streak: (c.stable_streak + 1) as u64,
            convergence_step: if c.stable_streak + 1 >= CONVERGENCE_WINDOW {
                Some(t)
            } else {
                None
            },
        }
    } else {
        Convergence { stable_streak: 0, convergence_step: None }
    }
}

impl Convergence {
    /// The streak never passes the window, and stays below it until the run
    /// has converged.
    pub open spec fn wf(&self) -> bool {
        &&& self.stable_streak <= CONVERGENCE_WINDOW
        &&& self.convergence_step is None ==> self.stable_streak < CONVERGENCE_WINDOW
    }

    /// No stable step seen yet, not converged.
    pub fn new() -> (c: Convergence)
        ensures
            c == (Convergence { stable_streak: 0, convergence_step: None }),
            c.wf(),
    {
        Convergence { stable_streak: 0, convergence_step: None }
    }

    /// Record whether step `t` was stable.
    pub fn observe(&mut self, stable: bool, t: u64)
        requires
            old(self).wf(),
        ensures
            *final(self) == observed(*old(self), stable, t),
            final(self).wf(),
    {
        if self.convergence_step.is_none() {
            if stable {
                self.stable_streak = self.stable_streak + 1;
                if self.stable_streak >= CONVERGENCE_WINDOW {
                    self.convergence_step = Some(t);
                }
            } else {
                self.stable_streak = 0;
            }
        }
    }
}

/// The state after observing, from a fresh start, each `(stable, t)` of `obs`
/// in order.
pub open spec fn after_observing(obs: Seq<(bool, u64)>) -> Convergence
    decreases obs.len(),
{
    if obs.len() == 0 {
        Convergence { stable_streak: 0, convergence_step: None }
    } else {
        observed(after_observing(obs.drop_last()), obs.last().0, obs.last().1)
    }
}

/// Whether the `CONVERGENCE_WINDOW` observations ending at index `j` are all
/// stable.
pub open spec fn stable_window_ends_at(obs: Seq<(bool, u64)>, j: int) -> bool {
    &&& CONVERGENCE_WINDOW - 1 <= j < obs.len()
    &&& forall|i: int| j - (CONVERGENCE_WINDOW - 1) <= i <= j ==> (#[trigger] obs[i]).0
}

/// The step of the first observation that ends a window of
/// `CONVERGENCE_WINDOW` consecutive stable observations, if any.
pub open spec fn first_convergence(obs: Seq<(bool, u64)>) -> Option<u64>
    decreases obs.len(),
{
    if obs.len() == 0 {
        None
    } else {
        match first_convergence(obs.drop_last()) {
            Some(t) => Some(t),
            None => if stable_window_ends_at(obs, obs.len() - 1) {
                Some(obs.last().1)
            } else {
                None
            },
        }
    }
}

/// How many observations at the end of `obs` are stable in a row.
pub open spec fn trailing_stable(obs: Seq<(bool, u64)>) -> nat
    decreases obs.len(),
{
    if obs.len() == 0 || !obs.last().0 {
        0
    } else {
        trailing_stable(obs.drop_last()) + 1
    }
}

proof fn lemma_trailing_stable_window(obs: Seq<(bool, u64)>, n: nat)
    ensures
        trailing_stable(obs) >= n <==> (obs.len() >= n && forall|i: int|
            obs.len() - n <= i < obs.len() ==> (#[trigger] obs[i]).0),
    decreases n,
{
    if n > 0 && obs.len() > 0 {
        let p = obs.drop_last();
        lemma_trailing_stable_window(p, (n - 1) as nat);
        if obs.len() >= n && forall|i: int| obs.len() - n <= i < obs.len() ==> (#[trigger] obs[i]).0 {
            assert(obs[obs.len() - 1].0);
            assert forall|i: int| p.len() - (n - 1) <= i < p.len() implies (#[trigger] p[i]).0 by {
                assert(p[i] == obs[i]);
            }
        }
        if trailing_stable(obs) >= n {
            assert forall|i: int| obs.len() - n <= i < obs.len() implies (#[trigger] obs[i]).0 by {
                if i < obs.len() - 1 {
                    assert(p[i] == obs[i]);
                }
            }
        }
    }
}

/// Observing a run step by step converges exactly at the first step that ends
/// `CONVERGENCE_WINDOW` consecutive stable steps, and the convergence step
/// never changes afterwards.
pub proof fn lemma_convergence_is_first_stable_window(obs: Seq<(bool, u64)>)
    ensures
        after_observing(obs).wf(),
        after_observing(obs).convergence_step == first_convergence(obs),
        after_observing(obs).convergence_step is None ==> after_observing(obs).stable_streak
            == trailing_stable(obs),
    decreases obs.len(),
{
    if obs.len() > 0 {
        let p = obs.drop_last();
        lemma_convergence_is_first_stable_window(p);
        lemma_trailing_stable_window(obs, CONVERGENCE_WINDOW as nat);
        if stable_window_ends_at(obs, obs.len() - 1) {
            assert forall|i: int|
                obs.len() - CONVERGENCE_WINDOW <= i < obs.len() implies (#[trigger] obs[i]).0 by {}
        }
    }
}

// ------------------------------------------------------------------------- //
// Within-team network generator
// ------------------------------------------------------------------------- //

/// Which generator builds a team's network, with its integer parameter (the
/// edge probability / rewiring probability is passed on unchanged).
#[derive(Debug, Clone, Copy, PartialEq, Eq, Structural)]
pub enum NetworkPlan {
    /// Watts-Strogatz ring lattice of degree `k`, then rewired.
    WattsStrogatz { k: usize },
    /// Erdos-Renyi G(n, p).
    ErdosRenyi,
    /// Barabasi-Albert with `m` edges per new node.
    BarabasiAlbert { m: usize },
}

/// The Watts-Strogatz degree for a team of `team_size`: the configured `k`,
/// capped at `team_size - 1` (zero for an empty team), and at least 2.
pub open spec fn ws_degree(network_k: usize, team_size: usize) -> usize {
    let cap: usize = if team_size >= 1 { (team_size - 1) as usize } else { 0 };
    let k = if network_k <= cap { network_k } else { cap };
    if k >= 2 { k } else { 2 }
}

/// The generator and integer parameter for one team's network: Watts-Strogatz
/// with [`ws_degree`]; Erdos-Renyi; Barabasi-Albert with `m = max(k, 1)`.
pub fn network_plan(kind: NetworkKind, network_k: usize, team_size: usize) -> (r: NetworkPlan)
    ensures
        r == match kind {
            NetworkKind::WattsStrogatz => NetworkPlan::WattsStrogatz { k: ws_degree(network_k, team_size) },
            NetworkKind::ErdosRenyi => NetworkPlan::ErdosRenyi,
            NetworkKind::BarabasiAlbert => NetworkPlan::BarabasiAlbert {
                m: if network_k >= 1 { network_k } else { 1 },
            },
        },
        kind == NetworkKind::WattsStrogatz && 2 <= network_k < team_size ==> (r
            == (NetworkPlan::WattsStrogatz { k: network_k })),
        kind == NetworkKind::BarabasiAlbert && network_k >= 1 ==> (r
            == (NetworkPlan::BarabasiAlbert { m: network_k })),
{
    match kind {
        NetworkKind::WattsStrogatz => {
            let cap = team_size.saturating_sub(1);
            let k = if network_k <= cap { network_k } else { cap };
            NetworkPlan::WattsStrogatz { k: if k >= 2 { k } else { 2 } }
        },
        NetworkKind::ErdosRenyi => NetworkPlan::ErdosRenyi,
        NetworkKind::BarabasiAlbert => NetworkPlan::BarabasiAlbert {
            m: if network_k >= 1 { network_k } else { 1 },
        },
    }
}

/// The Watts-Strogatz degree is the configured `k` whenever that fits the team
/// (`2 <= k <= team_size - 1`); a larger `k` is cut to `team_size - 1`; it is
/// never below 2 and never above `max(team_size - 1, 2)`.
pub proof fn lemma_ws_degree_fits_team(network_k: usize, team_size: usize)
    ensures
        2 <= network_k && network_k + 1 <= team_size ==> ws_degree(network_k, team_size)
            == network_k,
        network_k + 1 > team_size && team_size >= 3 ==> ws_degree(network_k, team_size) + 1
            == team_size,
        ws_degree(network_k, team_size) >= 2,
        ws_degree(network_k, team_size) <= network_k || ws_degree(network_k, team_size) == 2,
        ws_degree(network_k, team_size) + 1 <= team_size || ws_degree(network_k, team_size) == 2,
{
}

// ------------------------------------------------------------------------- //
// Hypothesis tally
// ------------------------------------------------------------------------- //

/// One point for a condition that holds.
pub open spec fn point(b: bool) -> int {
    if b { 1 } else { 0 }
}

/// Tally of the paper's eight hypotheses that a cross-section supports.
///
/// - H1 support -> psi and H2 coaching -> psi count together when the
///   support -> psi slope is positive and significant;
/// - H3 psi -> learning when its slope is positive and significant;
/// - H4 learning -> performance when its slope and adjusted R^2 are positive;
/// - H6 psi mediates when the mediated share is at least one half and the
///   residual direct path is not significant;
/// - H7 when psi has a total effect on performance.
///
/// H5 and H8 (the efficacy discriminant) are expected unsupported and are
/// never counted, so the tally is at most six.
pub fn hypotheses_supported(
    support_to_psi: bool,
    psi_to_learning: bool,
    learning_to_performance: bool,
    mediation: bool,
    total_effect: bool,
) -> (r: u8)
    ensures
        r as int == 2 * point(support_to_psi) + point(psi_to_learning) + point(
            learning_to_performance,
        ) + point(mediation) + point(total_effect),
        r <= 6,
{
    let mut supported: u8 = 0;
    if support_to_psi {
        supported = supported + 1;
        supported = supported + 1;
    }
    if psi_to_learning {
        supported = supported + 1;
    }
    if learning_to_performance {
        supported = supported + 1;
    }
    if mediation {
        supported = supported + 1;
    }
    if total_effect {
        supported = supported + 1;
    }
    supported
}

// ------------------------------------------------------------------------- //
// Per-individual voice tally (for the learning-behavior ICC)
// ------------------------------------------------------------------------- //

/// Steps before this one are a burn-in and are not tallied.
pub const VOICE_BURN_IN: u64 = 2;

/// Per-individual voice tally over a run: agent id -> (steps voiced, steps
/// observed, team at first observation).
#[derive(Clone, Debug)]
pub struct VoiceTally {
    pub by_agent: BTreeMap<u64, (u32, u32, u32)>,
}

/// The tally entry of `agent` after observing it at step `t` in team `team`,
/// voicing or not; `old` is its entry before, if any.
pub open spec fn tallied(old: Option<(u32, u32, u32)>, team: u32, voiced: bool) -> (u32, u32, u32) {
    let (v, o, k) = match old {
        Some(e) => e,
        None => (0u32, 0u32, team),
    };
    ((v + if voiced { 1int } else { 0int }) as u32, (o + 1) as u32, k)
}

impl VoiceTally {
    /// An individual never voiced more often than it was observed.
    pub open spec fn wf(&self) -> bool {
        forall|a: u64| #[trigger] self.by_agent@.contains_key(a) ==> self.by_agent@[a].0 <= self.by_agent@[a].1
    }

    /// No individual tallied yet.
    pub fn new() -> (r: VoiceTally)
        ensures
            r.by_agent@ == Map::<u64, (u32, u32, u32)>::empty(),
            r.wf(),
    {
        VoiceTally { by_agent: BTreeMap::new() }
    }

    /// Tally individual `agent` of team `team` at step `t`: from the end of
    /// the burn-in on, one more observed step, and one more voiced step when
    /// it voiced. The team recorded is the one at its first tallied step.
    pub fn record(&mut self, agent: u64, team: u32, voiced: bool, t: u64)
        requires
            old(self).by_agent@.contains_key(agent) ==> old(self).by_agent@[agent].1 < u32::MAX
                && (voiced ==> old(self).by_agent@[agent].0 < u32::MAX),
        ensures
            t < VOICE_BURN_IN ==> final(self).by_agent@ == old(self).by_agent@,
            t >= VOICE_BURN_IN ==> final(self).by_agent@ == old(self).by_agent@.insert(
                agent,
                tallied(
                    if old(self).by_agent@.contains_key(agent) {
                        Some(old(self).by_agent@[agent])
                    } else {
                        None
                    },
                    team,
                    voiced,
                ),
            ),
            old(self).wf() ==> final(self).wf(),
            t >= VOICE_BURN_IN ==> final(self).by_agent@.contains_key(agent),
            t >= VOICE_BURN_IN && old(self).by_agent@.contains_key(agent) ==> {
                &&& final(self).by_agent@[agent].0 == old(self).by_agent@[agent].0 + if voiced {
                    1int
                } else {
                    0int
                }
                &&& final(self).by_agent@[agent].1 == old(self).by_agent@[agent].1 + 1
                &&& final(self).by_agent@[agent].2 == old(self).by_agent@[agent].2
            },
            t >= VOICE_BURN_IN && !old(self).by_agent@.contains_key(agent)
                ==> final(self).by_agent@[agent] == (if voiced { 1u32 } else { 0u32 }, 1u32, team),
    {
        if t >= VOICE_BURN_IN {
            let (v, o, k): (u32, u32, u32) = match self.by_agent.get(&agent) {
                Some(e) => *e,
                None => (0, 0, team),
            };
            let nv: u32 = if voiced { v + 1 } else { v };
            self.by_agent.insert(agent, (nv, o + 1, k));
        }
    }
}

/// The tally entry of one individual of team `team` after the tallied steps
/// `voices` (whether it voiced at each), starting from no entry.
pub open spec fn tally_after(voices: Seq<bool>, team: u32) -> Option<(u32, u32, u32)>
    decreases voices.len(),
{
    if voices.len() == 0 {
        None
    } else {
        Some(tallied(tally_after(voices.drop_last(), team), team, voices.last()))
    }
}

/// How many of `voices` are true.
pub open spec fn times_voiced(voices: Seq<bool>) -> nat
    decreases voices.len(),
{
    if voices.len() == 0 {
        0
    } else {
        times_voiced(voices.drop_last()) + if voices.last() {
            1nat
        } else {
            0nat
        }
    }
}

/// After a run of tallied steps an individual's entry holds the number of
/// steps it voiced, the number of steps observed, and its team; in particular
/// after `n` steps all voiced it is `(n, n, team)`.
pub proof fn lemma_tally_counts_steps(voices: Seq<bool>, team: u32)
    requires
        0 < voices.len() <= u32::MAX,
    ensures
        tally_after(voices, team) == Some(
            (times_voiced(voices) as u32, voices.len() as u32, team),
        ),
        times_voiced(voices) <= voices.len(),
    decreases voices.len(),
{
    let p = voices.drop_last();
    if p.len() > 0 {
        lemma_tally_counts_steps(p, team);
    } else {
        assert(tally_after(p, team) == None::<(u32, u32, u32)>);
        assert(times_voiced(p) == 0);
    }
    assert(tally_after(voices, team) == Some(tallied(tally_after(p, team), team, voices.last())));
    assert(times_voiced(voices) == times_voiced(p) + if voices.last() { 1nat } else { 0nat });
}

} // verus!
