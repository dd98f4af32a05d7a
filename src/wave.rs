//! Wave: per-block vote ledger with quorum checks and β-consecutive-round finality.

use vstd::prelude::*;
use crate::types::{ID, Vote, Decision, prefers};
use crate::config::{QuasarConfig, ratio_count};
use crate::fpc::FpcSelector;
use crate::idmap::IdMap;

verus! {

/// Number of votes among `votes` that prefer.
pub open spec fn yes_votes(votes: Seq<Vote>) -> nat
    decreases votes.len(),
{
    if votes.len() == 0 {
        0
    } else {
        yes_votes(votes.drop_last()) + if prefers(votes.last().vote_type) {
            1nat
        } else {
            0nat
        }
    }
}

/// Whether `voter` cast one of `votes`.
pub open spec fn has_voter(votes: Seq<Vote>, voter: ID) -> bool {
    exists|i: int| 0 <= i < votes.len() && votes[i].voter == voter
}

/// No voter appears twice.
pub open spec fn distinct_voters(votes: Seq<Vote>) -> bool {
    forall|i: int, j: int|
        0 <= i < votes.len() && 0 <= j < votes.len() && i != j ==> votes[i].voter != votes[j].voter
}

/// The mathematical content of a [`WaveState`].
pub struct WaveModel {
    pub votes: Seq<Vote>,
    pub yes_count: nat,
    pub no_count: nat,
    pub preference: bool,
    pub confidence: nat,
    pub decided: bool,
    pub decision: Decision,
}

/// The state of a block nobody has voted on.
pub open spec fn fresh_model() -> WaveModel {
    WaveModel {
        votes: Seq::empty(),
        yes_count: 0,
        no_count: 0,
        preference: false,
        confidence: 0,
        decided: false,
        decision: Decision::Undecided,
    }
}

/// The invariant of a block's state under finality count `beta`: counters match
/// the ledger, each voter votes once, and confidence stays at most `β` (at most 1
/// when `β = 0`), below it while undecided.
pub open spec fn model_wf(m: WaveModel, beta: u32) -> bool {
    &&& m.yes_count == yes_votes(m.votes)
    &&& m.yes_count + m.no_count == m.votes.len()
    &&& distinct_voters(m.votes)
    &&& (m.decided <==> m.decision != Decision::Undecided)
    &&& if beta == 0 {
        m.confidence <= 1 && (!m.decided ==> m.confidence == 0)
    } else {
        m.confidence <= beta && (!m.decided ==> m.confidence < beta)
    }
}

/// `m` with `v` appended to the ledger and counted.
pub open spec fn with_vote(m: WaveModel, v: Vote) -> WaveModel {
    WaveModel {
        votes: m.votes.push(v),
        yes_count: if prefers(v.vote_type) { m.yes_count + 1 } else { m.yes_count },
        no_count: if prefers(v.vote_type) { m.no_count } else { m.no_count + 1 },
        ..m
    }
}

/// One consensus check with threshold `t`: with fewer than `k` votes nothing
/// changes; a side reaching `t` extends or restarts the confidence streak,
/// neither side resets it; reaching `β` decides for the preferred side.
pub open spec fn after_round(m: WaveModel, t: nat, k: nat, beta: nat) -> WaveModel {
    if m.yes_count + m.no_count < k {
        m
    } else {
        let p = if m.yes_count >= t {
            true
        } else if m.no_count >= t {
            false
        } else {
            m.preference
        };
        let c: nat = if m.yes_count >= t || m.no_count >= t {
            if p == m.preference { m.confidence + 1 } else { 1 }
        } else {
            0
        };
        if c >= beta {
            WaveModel {
                preference: p,
                confidence: c,
                decided: true,
                decision: if p { Decision::Accept } else { Decision::Reject },
                ..m
            }
        } else {
            WaveModel { preference: p, confidence: c, ..m }
        }
    }
}

/// Vote ledger and consensus progress of one block.
#[derive(Debug, Clone)]
pub struct WaveState {
    pub votes: Vec<Vote>,
    pub yes_count: usize,
    pub no_count: usize,
    pub preference: bool,
    pub confidence: u32,
    pub decided: bool,
    pub decision: Decision,
}

impl View for WaveState {
    type V = WaveModel;

    open spec fn view(&self) -> WaveModel {
        WaveModel {
            votes: self.votes@,
            yes_count: self.yes_count as nat,
            no_count: self.no_count as nat,
            preference: self.preference,
            confidence: self.confidence as nat,
            decided: self.decided,
            decision: self.decision,
        }
    }
}

impl WaveState {
    pub fn new() -> (r: WaveState)
        ensures
            r@ == fresh_model(),
    {
        WaveState {
            votes: Vec::new(),
            yes_count: 0,
            no_count: 0,
            preference: false,
            confidence: 0,
            decided: false,
            decision: Decision::Undecided,
        }
    }
}

impl Default for WaveState {
    fn default() -> (r: WaveState)
        ensures
            r@ == fresh_model(),
    {
        WaveState::new()
    }
}

/// Applies one consensus check with threshold `t` to a block's state.
fn apply_round(st: &mut WaveState, t: usize, k: usize, beta: u32) -> (decided_now: bool)
    requires
        model_wf(old(st)@, beta),
        !old(st)@.decided,
    ensures
        final(st)@ == after_round(old(st)@, t as nat, k as nat, beta as nat),
        model_wf(final(st)@, beta),
        decided_now == final(st)@.decided,
{
    if st.votes.len() < k {
        return false;
    }
    if st.yes_count >= t {
        if st.preference {
            st.confidence = st.confidence + 1;
        } else {
            st.preference = true;
            st.confidence = 1;
        }
    } else if st.no_count >= t {
        if !st.preference {
            st.confidence = st.confidence + 1;
        } else {
            st.preference = false;
            st.confidence = 1;
        }
    } else {
        st.confidence = 0;
    }
    if st.confidence >= beta {
        st.decided = true;
        st.decision = if st.preference { Decision::Accept } else { Decision::Reject };
        return true;
    }
    false
}

/// The abstract content of a [`Wave`].
pub struct WaveView {
    pub k: nat,
    pub beta: u32,
    pub alpha_count: nat,
    pub fpc: Option<FpcSelector>,
    pub phase: u64,
    pub states: Map<ID, WaveModel>,
}

/// The threshold consulted at `phase`: FPC's `⌈θ(phase)·k⌉` when enabled, else `⌈α·k⌉`.
pub open spec fn threshold_at(w: WaveView, phase: u64) -> nat {
    match w.fpc {
        Some(f) => ratio_count(f.theta_spec(phase) as u64, w.k as usize) as nat,
        None => w.alpha_count,
    }
}

/// The phase after one more consensus check.
pub open spec fn next_phase(w: WaveView) -> u64 {
    if w.fpc is Some {
        (w.phase + 1) as u64
    } else {
        w.phase
    }
}

/// A block's state, or a fresh one for an unseen block.
pub open spec fn state_or_fresh(w: WaveView, id: ID) -> WaveModel {
    if w.states.contains_key(id) {
        w.states[id]
    } else {
        fresh_model()
    }
}

/// Whether recording `v` is ignored: its block is decided or its voter already voted.
pub open spec fn vote_ignored(w: WaveView, v: Vote) -> bool {
    state_or_fresh(w, v.block_id).decided || has_voter(state_or_fresh(w, v.block_id).votes, v.voter)
}

/// The wave after recording `v`.
pub open spec fn wave_after_vote(w: WaveView, v: Vote) -> WaveView {
    let m = state_or_fresh(w, v.block_id);
    if vote_ignored(w, v) {
        WaveView { states: w.states.insert(v.block_id, m), ..w }
    } else {
        WaveView {
            phase: next_phase(w),
            states: w.states.insert(
                v.block_id,
                after_round(with_vote(m, v), threshold_at(w, next_phase(w)), w.k, w.beta as nat),
            ),
            ..w
        }
    }
}

/// Whether recording `v` decides its block just now.
pub open spec fn decides_now(w: WaveView, v: Vote) -> bool {
    !vote_ignored(w, v) && wave_after_vote(w, v).states[v.block_id].decided
}

/// Wave voter over all blocks, with an optional FPC threshold selector.
pub struct Wave {
    config: QuasarConfig,
    fpc: Option<FpcSelector>,
    phase: u64,
    states: IdMap<WaveState>,
}

impl View for Wave {
    type V = WaveView;

    closed spec fn view(&self) -> WaveView {
        WaveView {
            k: self.config.k as nat,
            beta: self.config.beta,
            alpha_count: ratio_count(self.config.alpha, self.config.k) as nat,
            fpc: self.fpc,
            phase: self.phase,
            states: self.states@.map_values(|s: WaveState| s@),
        }
    }
}

impl Wave {
    /// Internal invariant.
    pub closed spec fn inv(&self) -> bool {
        &&& self.states.wf()
        &&& forall|id: ID| #[trigger] self.states@.contains_key(id) ==> model_wf(self.states@[id]@, self.config.beta)
        &&& match self.fpc {
            Some(f) => f.wf(),
            None => true,
        }
    }

    /// Every block's state is well formed under the wave's `β`.
    pub proof fn lemma_states_wf(&self, id: ID)
        requires
            self.inv(),
            self@.states.contains_key(id),
        ensures
            model_wf(self@.states[id], self@.beta),
    {
    }

    /// An FPC selector with the configured bounds and seed when FPC is enabled.
    pub fn new(config: QuasarConfig) -> (r: Wave)
        ensures
            r.inv(),
            r@.k == config.k,
            r@.beta == config.beta,
            r@.alpha_count == ratio_count(config.alpha, config.k),
            r@.phase == 0,
            r@.states == Map::<ID, WaveModel>::empty(),
            config.enable_fpc <==> r@.fpc is Some,
            config.enable_fpc ==> r@.fpc.unwrap().seed_bytes() == config.fpc_seed@
                && (r@.fpc.unwrap().lo(), r@.fpc.unwrap().hi()) == crate::fpc::clamp_range(
                config.theta_min,
                config.theta_max,
            ),
    {
        let fpc = if config.enable_fpc {
            Some(FpcSelector::new(config.theta_min, config.theta_max, config.fpc_seed))
        } else {
            None
        };
        let r = Wave { config, fpc, phase: 0, states: IdMap::new() };
        assert(r@.states =~= Map::<ID, WaveModel>::empty());
        r
    }

    /// Position of a block's state, creating a fresh state if there is none.
    fn locate(&mut self, block_id: &ID) -> (i: usize)
        requires
            old(self).inv(),
        ensures
            final(self).inv(),
            final(self)@ == (WaveView {
                states: old(self)@.states.insert(*block_id, state_or_fresh(old(self)@, *block_id)),
                ..old(self)@
            }),
            i < final(self).states.pairs().len(),
            final(self).states.pairs()[i as int].0 == *block_id,
    {
        if !self.states.contains_key(block_id) {
            let st = WaveState::new();
            self.states.insert(*block_id, st);
        }
        let i = match self.states.find(block_id) {
            Some(i) => i,
            None => {
                assert(false);
                0
            },
        };
        proof {
            self.states.lemma_at(i as int);
            assert(self@.states =~= old(self)@.states.insert(*block_id, state_or_fresh(old(self)@, *block_id)));
        }
        i
    }

    /// Ensures a state exists for `block_id` and hands it back.
    pub fn get_or_create_state(&mut self, block_id: &ID) -> (r: &WaveState)
        requires
            old(self).inv(),
        ensures
            final(self).inv(),
            r@ == state_or_fresh(old(self)@, *block_id),
            final(self)@ == (WaveView {
                states: old(self)@.states.insert(*block_id, state_or_fresh(old(self)@, *block_id)),
                ..old(self)@
            }),
    {
        let i = self.locate(block_id);
        let r = self.states.entry_at(i).1;
        proof {
            assert(self@.states[*block_id] == self.states@[*block_id]@);
        }
        r
    }

    /// The threshold for the next consensus check; advances the phase when FPC is enabled.
    pub fn get_threshold(&mut self) -> (r: usize)
        requires
            old(self).inv(),
            old(self)@.fpc is Some ==> old(self)@.phase < u64::MAX,
        ensures
            final(self).inv(),
            final(self)@ == (WaveView { phase: next_phase(old(self)@), ..old(self)@ }),
            r == threshold_at(old(self)@, next_phase(old(self)@)),
    {
        let k = self.config.k;
        match &self.fpc {
            Some(fpc) => {
                self.phase = self.phase + 1;
                fpc.select_threshold(self.phase, k)
            },
            None => self.config.alpha_count(),
        }
    }

    /// Runs one consensus check on `block_id`; true when it decides the block just now.
    fn check_consensus(&mut self, block_id: &ID) -> (r: bool)
        requires
            old(self).inv(),
            old(self)@.fpc is Some ==> old(self)@.phase < u64::MAX,
        ensures
            final(self).inv(),
            ({
                let w = old(self)@;
                let t = threshold_at(w, next_phase(w));
                let live = w.states.contains_key(*block_id) && !w.states[*block_id].decided;
                &&& final(self)@ == (WaveView {
                    phase: next_phase(w),
                    states: if live {
                        w.states.insert(*block_id, after_round(w.states[*block_id], t, w.k, w.beta as nat))
                    } else {
                        w.states
                    },
                    ..w
                })
                &&& r == (live && after_round(w.states[*block_id], t, w.k, w.beta as nat).decided)
            }),
    {
        let threshold = self.get_threshold();
        let k = self.config.k;
        let beta = self.config.beta;
        let i = match self.states.find(block_id) {
            Some(i) => i,
            None => {
                return false;
            },
        };
        proof {
            self.states.lemma_at(i as int);
        }
        if self.states.entry_at(i).1.decided {
            return false;
        }
        let ghost mid = self.states;
        let decided_now = {
            let st = self.states.value_mut(i);
            apply_round(st, threshold, k, beta)
        };
        proof {
            let fin = self.states.pairs()[i as int].1;
            IdMap::lemma_set_value(&mid, &self.states, i as int, fin);
            assert forall|id: ID| #[trigger] self.states@.contains_key(id) implies model_wf(
                self.states@[id]@,
                self.config.beta,
            ) by {
                if id != *block_id {
                    assert(mid@.contains_key(id));
                }
            }
            assert(self@.states =~= old(self)@.states.insert(
                *block_id,
                after_round(old(self)@.states[*block_id], threshold as nat, k as nat, beta as nat),
            ));
        }
        decided_now
    }

    /// Records a vote and runs a consensus check; true when the vote decides its
    /// block just now. A vote on a decided block, or from a voter already in the
    /// block's ledger, is ignored.
    pub fn record_vote(&mut self, vote: Vote) -> (r: bool)
        requires
            old(self).inv(),
            old(self)@.fpc is Some ==> old(self)@.phase < u64::MAX,
        ensures
            final(self).inv(),
            final(self)@ == wave_after_vote(old(self)@, vote),
            r == decides_now(old(self)@, vote),
    {
        let block_id = vote.block_id;
        let i = self.locate(&block_id);
        let ghost w1 = self@;
        proof {
            self.states.lemma_at(i as int);
            assert(self@.states[block_id] == self.states@[block_id]@);
            assert(self.states@[block_id]@ == state_or_fresh(old(self)@, block_id));
            assert(self@ == wave_after_vote(old(self)@, vote) || !vote_ignored(old(self)@, vote));
        }
        {
            let st = self.states.entry_at(i).1;
            if st.decided {
                assert(self@ == wave_after_vote(old(self)@, vote));
                return false;
            }
            let mut j: usize = 0;
            while j < st.votes.len()
                invariant
                    j <= st.votes@.len(),
                    forall|t: int| 0 <= t < j ==> st.votes@[t].voter != vote.voter,
                    self.inv(),
                    block_id == vote.block_id,
                    st@ == state_or_fresh(old(self)@, block_id),
                    self@ == (WaveView {
                        states: old(self)@.states.insert(block_id, state_or_fresh(old(self)@, block_id)),
                        ..old(self)@
                    }),
                decreases st.votes@.len() - j,
            {
                let cast = &st.votes[j];
                if cast.voter == vote.voter {
                    assert(*cast == st.votes@[j as int]);
                    assert(has_voter(st.votes@, vote.voter));
                    return false;
                }
                j = j + 1;
            }
        }
        let ghost m0 = state_or_fresh(old(self)@, block_id);
        assert(!has_voter(m0.votes, vote.voter));
        let ghost mid = self.states;
        let yes = vote.prefer();
        proof {
            assert(model_wf(mid@[block_id]@, self.config.beta));
        }
        {
            let st = self.states.value_mut(i);
            st.votes.push(vote);
            proof {
                assert(st.votes@.len() == st.votes.len());
            }
            if yes {
                st.yes_count = st.yes_count + 1;
            } else {
                st.no_count = st.no_count + 1;
            }
        }
        proof {
            let fin = self.states.pairs()[i as int].1;
            IdMap::lemma_set_value(&mid, &self.states, i as int, fin);
            let m1 = with_vote(m0, vote);
            assert(fin@ == m1);
            assert(m1.votes.drop_last() =~= m0.votes);
            assert(distinct_voters(m1.votes)) by {
                assert forall|a: int, b: int|
                    0 <= a < m1.votes.len() && 0 <= b < m1.votes.len() && a != b
                    implies m1.votes[a].voter != m1.votes[b].voter by {
                    if a == m0.votes.len() {
                        assert(m1.votes[b] == m0.votes[b]);
                    } else if b == m0.votes.len() {
                        assert(m1.votes[a] == m0.votes[a]);
                    }
                }
            }
            assert forall|id: ID| #[trigger] self.states@.contains_key(id) implies model_wf(
                self.states@[id]@,
                self.config.beta,
            ) by {
                if id != block_id {
                    assert(mid@.contains_key(id));
                }
            }
            assert(w1.states == mid@.map_values(|s: WaveState| s@));
            assert(w1.states == old(self)@.states.insert(block_id, m0));
            assert(self.states@ == mid@.insert(block_id, fin));
            assert forall|k: ID| #![auto] self@.states.contains_key(k) == old(self)@.states.insert(block_id, m1).contains_key(k) by {
                if k != block_id {
                    assert(self.states@.contains_key(k) == mid@.contains_key(k));
                    assert(mid@.contains_key(k) == w1.states.contains_key(k));
                }
            }
            assert forall|k: ID| #![auto] self@.states.contains_key(k) implies self@.states[k] == old(self)@.states.insert(block_id, m1)[k] by {
                if k != block_id {
                    assert(self.states@[k] == mid@[k]);
                    assert(mid@[k]@ == w1.states[k]);
                }
            }
            assert(self@.states =~= old(self)@.states.insert(block_id, m1));
        }
        let r = self.check_consensus(&block_id);
        proof {
            let w = old(self)@;
            let t = threshold_at(w, next_phase(w));
            let m1 = with_vote(m0, vote);
            assert(self@.states =~= w.states.insert(block_id, after_round(m1, t, w.k, w.beta as nat)));
        }
        r
    }

    /// The state of a block, if it has one.
    pub fn state(&self, block_id: &ID) -> (r: Option<&WaveState>)
        requires
            self.inv(),
        ensures
            match r {
                Some(st) => self@.states.contains_key(*block_id) && st@ == self@.states[*block_id],
                None => !self@.states.contains_key(*block_id),
            },
    {
        self.states.get(block_id)
    }

    pub fn is_decided(&self, block_id: &ID) -> (r: bool)
        requires
            self.inv(),
        ensures
            r == (self@.states.contains_key(*block_id) && self@.states[*block_id].decided),
    {
        match self.states.get(block_id) {
            Some(st) => st.decided,
            None => false,
        }
    }

    pub fn decision(&self, block_id: &ID) -> (r: Decision)
        requires
            self.inv(),
        ensures
            r == (if self@.states.contains_key(*block_id) {
                self@.states[*block_id].decision
            } else {
                Decision::Undecided
            }),
    {
        match self.states.get(block_id) {
            Some(st) => st.decision,
            None => Decision::Undecided,
        }
    }

    /// Forgets a block's state.
    pub fn reset(&mut self, block_id: &ID)
        requires
            old(self).inv(),
        ensures
            final(self).inv(),
            final(self)@ == (WaveView { states: old(self)@.states.remove(*block_id), ..old(self)@ }),
    {
        let _ = self.states.remove(block_id);
        proof {
            assert forall|id: ID| #[trigger] self.states@.contains_key(id) implies model_wf(
                self.states@[id]@,
                self.config.beta,
            ) by {
                assert(old(self).states@.contains_key(id));
            }
            assert(self@.states =~= old(self)@.states.remove(*block_id));
        }
    }

    /// The current FPC phase.
    pub fn phase(&self) -> (r: u64)
        ensures
            r == self@.phase,
    {
        self.phase
    }
}

/// Once a block is decided, recording any vote leaves its state, and with it
/// `decided` and `decision`, unchanged, and decides nothing anew.
pub proof fn lemma_decision_is_final(w: WaveView, v: Vote, id: ID)
    requires
        w.states.contains_key(id),
        w.states[id].decided,
    ensures
        wave_after_vote(w, v).states.contains_key(id),
        wave_after_vote(w, v).states[id] == w.states[id],
        v.block_id == id ==> !decides_now(w, v),
{
}

/// In every block state of a wave each voter appears at most once, the yes and
/// no counters add up to the number of votes, and confidence lies in `[0, β]`
/// whenever `β ≥ 1`.
pub proof fn lemma_ledger_invariants(w: &Wave, id: ID)
    requires
        w.inv(),
        w@.states.contains_key(id),
    ensures
        distinct_voters(w@.states[id].votes),
        w@.states[id].yes_count + w@.states[id].no_count == w@.states[id].votes.len(),
        w@.states[id].yes_count == yes_votes(w@.states[id].votes),
        w@.beta >= 1 ==> 0 <= w@.states[id].confidence <= w@.beta,
{
    w.lemma_states_wf(id);
}

} // verus!
