//! The consensus engine: lifecycle, block registry, status map, vote dispatch
//! to Wave, promotion of decided blocks and certification of accepted ones.

use vstd::prelude::*;
use crate::types::{ID, NodeID, Block, Vote, Status, Decision};
use crate::config::QuasarConfig;
use crate::errors::ConsensusError;
use crate::idmap::IdMap;
use crate::wave::{Wave, WaveView, WaveModel, wave_after_vote, decides_now, state_or_fresh};
use crate::quasar::{QuasarConsensus, QuasarView, Validator, has_cert_quorum, certifies};

verus! {

/// Whether `b` is the genesis block: all-zero id and parent, height 0, no payload.
pub open spec fn is_genesis(b: Block) -> bool {
    b.id.is_zero_spec() && b.parent_id.is_zero_spec() && b.height == 0 && b.payload@.len() == 0
}

/// Abstract content of a [`QuasarEngine`].
pub struct EngineView {
    pub started: bool,
    /// Height of the highest accepted block.
    pub height: u64,
    pub blocks: Map<ID, Block>,
    pub status: Map<ID, Status>,
    pub wave: WaveView,
    pub quasar: QuasarView,
}

/// Status of a block as queries report it: `Unknown` for unseen blocks.
pub open spec fn status_of(e: EngineView, id: ID) -> Status {
    if e.status.contains_key(id) {
        e.status[id]
    } else {
        Status::Unknown
    }
}

/// What certifying block `id` at `height` from `votes` does to the certifier:
/// with a quorum, a certificate built from those votes is recorded; without,
/// nothing changes.
pub open spec fn certification(before: QuasarView, after: QuasarView, id: ID, height: u64, votes: Seq<Vote>) -> bool {
    &&& after.validators == before.validators
    &&& after.threshold == before.threshold
    &&& after.security_level == before.security_level
    &&& if has_cert_quorum(votes, before.validators, before.threshold) {
        exists|c| #![auto]
            certifies(c, id, height, votes, before.validators) && after.finalized == before.finalized.insert(id, c)
    } else {
        after.finalized == before.finalized
    }
}

/// What recording `v` does to a started engine that knows `v`'s block: Wave
/// records it; a just-decided block becomes `Accepted` (raising the height
/// watermark to its height and certifying it) or `Rejected`.
pub open spec fn vote_outcome(before: EngineView, after: EngineView, v: Vote) -> bool {
    let id = v.block_id;
    let w = wave_after_vote(before.wave, v);
    let decision = w.states[id].decision;
    &&& after.started == before.started
    &&& after.blocks == before.blocks
    &&& after.wave == w
    &&& if decides_now(before.wave, v) && decision == Decision::Accept {
        &&& after.status == before.status.insert(id, Status::Accepted)
        &&& after.height == if before.blocks[id].height > before.height {
            before.blocks[id].height
        } else {
            before.height
        }
        &&& certification(before.quasar, after.quasar, id, before.blocks[id].height, w.states[id].votes)
    } else if decides_now(before.wave, v) && decision == Decision::Reject {
        &&& after.status == before.status.insert(id, Status::Rejected)
        &&& after.height == before.height
        &&& after.quasar == before.quasar
    } else {
        &&& after.status == before.status
        &&& after.height == before.height
        &&& after.quasar == before.quasar
    }
}

/// One call of `record_vote(v)` from `before` to `after`; `ok` tells whether it
/// returned `Ok`.
pub open spec fn vote_step(before: EngineView, after: EngineView, v: Vote, ok: bool) -> bool {
    if !before.started || !before.blocks.contains_key(v.block_id) {
        !ok && after == before
    } else if settled(before, v.block_id) {
        ok && after == before
    } else {
        ok && vote_outcome(before, after, v)
    }
}

/// Whether a block's status is final: `Accepted` or `Rejected`.
pub open spec fn settled(e: EngineView, id: ID) -> bool {
    status_of(e, id) == Status::Accepted || status_of(e, id) == Status::Rejected
}

/// Number of `true` entries.
pub open spec fn count_true(s: Seq<bool>) -> nat
    decreases s.len(),
{
    if s.len() == 0 {
        0
    } else {
        count_true(s.drop_last()) + if s.last() { 1nat } else { 0nat }
    }
}

/// `trace` runs from `before` to `after` by recording `votes` one by one in
/// order, `oks` telling which of the calls succeeded.
pub open spec fn batch_trace(trace: Seq<EngineView>, oks: Seq<bool>, before: EngineView, after: EngineView, votes: Seq<Vote>) -> bool {
    &&& trace.len() == votes.len() + 1
    &&& oks.len() == votes.len()
    &&& trace[0] == before
    &&& trace[votes.len() as int] == after
    &&& forall|j: int| 0 <= j < votes.len() ==> #[trigger] vote_step(trace[j], trace[j + 1], votes[j], oks[j])
}

/// What adding `b` does to a started engine.
/// A block whose status is already final is left as it is.
pub open spec fn engine_after_add(e: EngineView, b: Block) -> EngineView {
    if settled(e, b.id) {
        e
    } else {
        EngineView {
            blocks: e.blocks.insert(b.id, b),
            status: e.status.insert(b.id, Status::Processing),
            wave: WaveView { states: e.wave.states.insert(b.id, state_or_fresh(e.wave, b.id)), ..e.wave },
            ..e
        }
    }
}

/// The complete consensus engine.
pub struct QuasarEngine {
    config: QuasarConfig,
    wave: Wave,
    quasar: QuasarConsensus,
    blocks: IdMap<Block>,
    status: IdMap<Status>,
    started: bool,
    height: u64,
}

/// The engine under its chain-oriented name.
pub type Chain = QuasarEngine;

impl View for QuasarEngine {
    type V = EngineView;

    closed spec fn view(&self) -> EngineView {
        EngineView {
            started: self.started,
            height: self.height,
            blocks: self.blocks@,
            status: self.status@,
            wave: self.wave@,
            quasar: self.quasar@,
        }
    }
}

impl QuasarEngine {
    /// Internal invariant, established by [`QuasarEngine::new`] and kept by every method.
    pub closed spec fn inv(&self) -> bool {
        &&& self.wave.inv()
        &&& self.quasar.inv()
        &&& self.blocks.wf()
        &&& self.status.wf()
    }

    /// The configuration the engine was created with.
    pub closed spec fn config_spec(&self) -> QuasarConfig {
        self.config
    }

    /// A stopped engine with no blocks, no validators and the Wave and
    /// certifier that `config` describes.
    pub fn new(config: QuasarConfig) -> (r: QuasarEngine)
        ensures
            r.inv(),
            r.config_spec() == config,
            !r@.started,
            r@.height == 0,
            r@.blocks == Map::<ID, Block>::empty(),
            r@.status == Map::<ID, Status>::empty(),
            r@.wave.k == config.k,
            r@.wave.beta == config.beta,
            r@.wave.alpha_count == crate::config::ratio_count(config.alpha, config.k),
            r@.wave.phase == 0,
            r@.wave.states == Map::<ID, WaveModel>::empty(),
            config.enable_fpc <==> r@.wave.fpc is Some,
            r@.quasar.validators == Map::<ID, Validator>::empty(),
            r@.quasar.threshold == crate::config::ratio_count(config.alpha, config.k),
            r@.quasar.finalized == Map::<ID, crate::quasar::CertificateView>::empty(),
    {
        let quasar = QuasarConsensus::new(&config);
        let wave = Wave::new(config);
        QuasarEngine {
            config,
            wave,
            quasar,
            blocks: IdMap::new(),
            status: IdMap::new(),
            started: false,
            height: 0,
        }
    }

    /// Engine with the balanced profile.
    pub fn default() -> (r: QuasarEngine)
        ensures
            r.inv(),
            !r@.started,
            r@.height == 0,
            r@.blocks == Map::<ID, Block>::empty(),
            r@.status == Map::<ID, Status>::empty(),
            crate::config::is_default_profile(r.config_spec()),
            r@.wave.phase == 0,
            r@.wave.fpc is Some <==> r.config_spec().enable_fpc,
            r@.wave.states == Map::<ID, WaveModel>::empty(),
    {
        QuasarEngine::new(QuasarConfig::default())
    }

    /// Engine with the testnet profile.
    pub fn testnet() -> (r: QuasarEngine)
        ensures
            r.inv(),
            !r@.started,
            r@.height == 0,
            r@.blocks == Map::<ID, Block>::empty(),
            r@.status == Map::<ID, Status>::empty(),
            crate::config::is_testnet_profile(r.config_spec()),
            r@.wave.phase == 0,
            r@.wave.fpc is Some <==> r.config_spec().enable_fpc,
            r@.wave.states == Map::<ID, WaveModel>::empty(),
    {
        QuasarEngine::new(QuasarConfig::testnet())
    }

    /// Engine with the mainnet profile.
    pub fn mainnet() -> (r: QuasarEngine)
        ensures
            r.inv(),
            !r@.started,
            r@.height == 0,
            r@.blocks == Map::<ID, Block>::empty(),
            r@.status == Map::<ID, Status>::empty(),
            crate::config::is_mainnet_profile(r.config_spec()),
            r@.wave.phase == 0,
            r@.wave.fpc is Some <==> r.config_spec().enable_fpc,
            r@.wave.states == Map::<ID, WaveModel>::empty(),
    {
        QuasarEngine::new(QuasarConfig::mainnet())
    }

    /// Registers an active validator with the certifier.
    pub fn add_validator(&mut self, id: NodeID, weight: u64)
        requires
            old(self).inv(),
        ensures
            final(self).inv(),
            final(self)@ == (EngineView {
                quasar: QuasarView {
                    validators: old(self)@.quasar.validators.insert(id, Validator { id, weight, active: true }),
                    ..old(self)@.quasar
                },
                ..old(self)@
            }),
            final(self).config_spec() == old(self).config_spec(),
    {
        self.quasar.add_validator(id, weight);
    }

    pub fn config(&self) -> (r: &QuasarConfig)
        ensures
            *r == self.config_spec(),
    {
        &self.config
    }

    /// The height of the highest accepted block.
    pub fn height(&self) -> (r: u64)
        ensures
            r == self@.height,
    {
        self.height
    }

    /// The FPC phase of the engine's Wave.
    pub fn phase(&self) -> (r: u64)
        ensures
            r == self@.wave.phase,
    {
        self.wave.phase()
    }

    /// Starts the engine, registering genesis as `Accepted`; a started engine
    /// fails with `AlreadyStarted` and stays as it is.
    pub fn start(&mut self) -> (r: Result<(), ConsensusError>)
        requires
            old(self).inv(),
        ensures
            final(self).inv(),
            final(self).config_spec() == old(self).config_spec(),
            old(self)@.started ==> r == Err::<(), ConsensusError>(ConsensusError::AlreadyStarted)
                && final(self)@ == old(self)@,
            !old(self)@.started ==> r is Ok && exists|g: Block| #![auto] is_genesis(g) && final(self)@ == (EngineView {
                started: true,
                blocks: old(self)@.blocks.insert(g.id, g),
                status: old(self)@.status.insert(g.id, Status::Accepted),
                ..old(self)@
            }),
    {
        if self.started {
            return Err(ConsensusError::AlreadyStarted);
        }
        let genesis = Block::genesis();
        let gid = genesis.id;
        let ghost g = genesis;
        self.blocks.insert(gid, genesis);
        self.status.insert(gid, Status::Accepted);
        self.started = true;
        assert(is_genesis(g));
        Ok(())
    }

    /// Stops ingestion; all state is kept.
    pub fn stop(&mut self) -> (r: Result<(), ConsensusError>)
        requires
            old(self).inv(),
        ensures
            final(self).inv(),
            r is Ok,
            final(self).config_spec() == old(self).config_spec(),
            final(self)@ == (EngineView { started: false, ..old(self)@ }),
    {
        self.started = false;
        Ok(())
    }

    /// Registers a block as `Processing` and gives it a Wave state (an existing
    /// state is kept); a block already `Accepted` or `Rejected` is left as it is.
    /// Fails with `NotInitialized` before `start`.
    pub fn add(&mut self, block: Block) -> (r: Result<(), ConsensusError>)
        requires
            old(self).inv(),
        ensures
            final(self).inv(),
            final(self).config_spec() == old(self).config_spec(),
            !old(self)@.started ==> r == Err::<(), ConsensusError>(ConsensusError::NotInitialized)
                && final(self)@ == old(self)@,
            old(self)@.started ==> r is Ok && final(self)@ == engine_after_add(old(self)@, block),
    {
        if !self.started {
            return Err(ConsensusError::NotInitialized);
        }
        let id = block.id;
        if self.is_settled(&id) {
            return Ok(());
        }
        self.blocks.insert(id, block);
        self.status.insert(id, Status::Processing);
        let _ = self.wave.get_or_create_state(&id);
        Ok(())
    }

    /// Marks an accepted block, raises the height watermark to its height and
    /// certifies it from its Wave votes; a certification failure is kept silent.
    fn accept_block(&mut self, block_id: &ID)
        requires
            old(self).inv(),
            old(self)@.blocks.contains_key(*block_id),
            old(self)@.wave.states.contains_key(*block_id),
        ensures
            final(self).inv(),
            final(self).config_spec() == old(self).config_spec(),
            final(self)@.started == old(self)@.started,
            final(self)@.blocks == old(self)@.blocks,
            final(self)@.wave == old(self)@.wave,
            final(self)@.status == old(self)@.status.insert(*block_id, Status::Accepted),
            final(self)@.height == if old(self)@.blocks[*block_id].height > old(self)@.height {
                old(self)@.blocks[*block_id].height
            } else {
                old(self)@.height
            },
            certification(
                old(self)@.quasar,
                final(self)@.quasar,
                *block_id,
                old(self)@.blocks[*block_id].height,
                old(self)@.wave.states[*block_id].votes,
            ),
    {
        self.status.insert(*block_id, Status::Accepted);
        let h = match self.blocks.get(block_id) {
            Some(b) => b.height,
            None => {
                assert(false);
                0
            },
        };
        if h > self.height {
            self.height = h;
        }
        match self.wave.state(block_id) {
            Some(st) => {
                let _ = self.quasar.create_certificate(*block_id, h, st.votes.as_slice());
            },
            None => {
                assert(false);
            },
        }
    }

    /// Records a vote. Fails with `NotInitialized` before `start` and with
    /// `BlockNotFound` for a block never added, changing nothing; a vote on a
    /// block already `Accepted` or `Rejected` (genesis among them) is ignored;
    /// otherwise does what [`vote_outcome`] states.
    pub fn record_vote(&mut self, vote: Vote) -> (r: Result<(), ConsensusError>)
        requires
            old(self).inv(),
            old(self)@.wave.fpc is Some ==> old(self)@.wave.phase < u64::MAX,
        ensures
            final(self).inv(),
            final(self).config_spec() == old(self).config_spec(),
            final(self)@.height >= old(self)@.height,
            !old(self)@.started ==> r == Err::<(), ConsensusError>(ConsensusError::NotInitialized)
                && final(self)@ == old(self)@,
            old(self)@.started && !old(self)@.blocks.contains_key(vote.block_id) ==> r == Err::<(), ConsensusError>(
                ConsensusError::BlockNotFound,
            ) && final(self)@ == old(self)@,
            old(self)@.started && old(self)@.blocks.contains_key(vote.block_id) && settled(old(self)@, vote.block_id)
                ==> r is Ok && final(self)@ == old(self)@,
            old(self)@.started && old(self)@.blocks.contains_key(vote.block_id) && !settled(old(self)@, vote.block_id)
                ==> r is Ok && vote_outcome(old(self)@, final(self)@, vote),
    {
        if !self.started {
            return Err(ConsensusError::NotInitialized);
        }
        if !self.blocks.contains_key(&vote.block_id) {
            return Err(ConsensusError::BlockNotFound);
        }
        let block_id = vote.block_id;
        if self.is_settled(&block_id) {
            return Ok(());
        }
        let decided = self.wave.record_vote(vote);
        if decided {
            let decision = self.wave.decision(&block_id);
            match decision {
                Decision::Accept => {
                    self.accept_block(&block_id);
                },
                Decision::Reject => {
                    self.status.insert(block_id, Status::Rejected);
                },
                Decision::Undecided => {},
            }
        }
        proof {
            assert(self@.wave.states.contains_key(block_id));
        }
        Ok(())
    }

    /// Records each vote in order and counts those recorded without error;
    /// the same as recording them one by one.
    pub fn record_votes_batch(&mut self, votes: Vec<Vote>) -> (r: usize)
        requires
            old(self).inv(),
            old(self)@.wave.fpc is Some ==> old(self)@.wave.phase + votes@.len() <= u64::MAX,
        ensures
            final(self).inv(),
            final(self).config_spec() == old(self).config_spec(),
            final(self)@.height >= old(self)@.height,
            exists|trace: Seq<EngineView>, oks: Seq<bool>| #[trigger] batch_trace(trace, oks, old(self)@, final(self)@, votes@)
                && r == count_true(oks),
    {
        let ghost n = votes@.len();
        assert(n == votes.len());
        let mut src = votes;
        let mut stack: Vec<Vote> = Vec::new();
        while src.len() > 0
            invariant
                src@.len() + stack@.len() == n,
                forall|j: int| 0 <= j < src@.len() ==> src@[j] == votes@[j],
                forall|j: int| 0 <= j < stack@.len() ==> stack@[j] == votes@[n - 1 - j],
            decreases src@.len(),
        {
            let v = src.pop().unwrap();
            stack.push(v);
        }
        let mut count: usize = 0;
        let mut i: usize = 0;
        let ghost mut trace: Seq<EngineView> = seq![self@];
        let ghost mut oks: Seq<bool> = Seq::empty();
        while stack.len() > 0
            invariant
                i + stack@.len() == n,
                n <= usize::MAX,
                forall|j: int| 0 <= j < stack@.len() ==> stack@[j] == votes@[n - 1 - j],
                count == count_true(oks),
                count <= i,
                trace.len() == i + 1,
                oks.len() == i,
                trace[0] == old(self)@,
                trace[i as int] == self@,
                forall|j: int| 0 <= j < i ==> #[trigger] vote_step(trace[j], trace[j + 1], votes@[j], oks[j]),
                self.inv(),
                self.config_spec() == old(self).config_spec(),
                self@.height >= old(self)@.height,
                self@.wave.fpc == old(self)@.wave.fpc,
                self@.wave.phase <= old(self)@.wave.phase + i,
                old(self)@.wave.fpc is Some ==> old(self)@.wave.phase + n <= u64::MAX,
            decreases stack@.len(),
        {
            let vote = stack.pop().unwrap();
            let ghost before = self@;
            let res = self.record_vote(vote);
            let ok = res.is_ok();
            if ok {
                count = count + 1;
            }
            proof {
                assert(vote == votes@[i as int]);
                assert(vote_step(before, self@, vote, ok));
                trace = trace.push(self@);
                let old_oks = oks;
                oks = oks.push(ok);
                assert(oks.drop_last() =~= old_oks);
            }
            i = i + 1;
        }
        proof {
            assert(batch_trace(trace, oks, old(self)@, self@, votes@));
        }
        count
    }

    /// Whether a block's status is `Accepted` or `Rejected`.
    fn is_settled(&self, id: &ID) -> (r: bool)
        requires
            self.inv(),
        ensures
            r == settled(self@, *id),
    {
        match self.status.get(id) {
            Some(s) => match s {
                Status::Accepted => true,
                Status::Rejected => true,
                _ => false,
            },
            None => false,
        }
    }

    pub fn is_accepted(&self, id: &ID) -> (r: bool)
        requires
            self.inv(),
        ensures
            r == (status_of(self@, *id) == Status::Accepted),
    {
        match self.status.get(id) {
            Some(s) => *s == Status::Accepted,
            None => false,
        }
    }

    pub fn get_status(&self, id: &ID) -> (r: Status)
        requires
            self.inv(),
        ensures
            r == status_of(self@, *id),
    {
        match self.status.get(id) {
            Some(s) => *s,
            None => Status::Unknown,
        }
    }
}

/// Adding the same block twice leaves the engine as the first add left it.
pub proof fn lemma_add_idempotent(e: EngineView, b: Block)
    requires
        e.started,
    ensures
        engine_after_add(engine_after_add(e, b), b) == engine_after_add(e, b),
{
    let e1 = engine_after_add(e, b);
    let e2 = engine_after_add(e1, b);
    assert(e2.blocks =~= e1.blocks);
    assert(e2.status =~= e1.status);
    assert(state_or_fresh(e1.wave, b.id) == state_or_fresh(e.wave, b.id));
    assert(e2.wave.states =~= e1.wave.states);
}

/// Once a block is `Accepted` or `Rejected`, neither recording a vote nor
/// adding a block changes its status.
pub proof fn lemma_settled_status_is_final(before: EngineView, after: EngineView, v: Vote, ok: bool, b: Block, id: ID)
    requires
        vote_step(before, after, v, ok),
        settled(before, id),
    ensures
        status_of(after, id) == status_of(before, id),
        before.started ==> status_of(engine_after_add(before, b), id) == status_of(before, id),
{
}

/// Recording a vote never lowers the height watermark.
pub proof fn lemma_vote_keeps_height(before: EngineView, after: EngineView, v: Vote, ok: bool)
    requires
        vote_step(before, after, v, ok),
    ensures
        after.height >= before.height,
{
}

/// Once a block is decided, recording any vote leaves its Wave state and its
/// status unchanged.
pub proof fn lemma_decided_block_frozen(before: EngineView, after: EngineView, v: Vote, ok: bool, id: ID)
    requires
        vote_step(before, after, v, ok),
        before.wave.states.contains_key(id),
        before.wave.states[id].decided,
    ensures
        after.wave.states.contains_key(id),
        after.wave.states[id] == before.wave.states[id],
        status_of(after, id) == status_of(before, id),
{
    crate::wave::lemma_decision_is_final(before.wave, v, id);
}

/// In every block state of an engine each voter appears at most once, the
/// counters add up to the number of votes, and confidence lies in `[0, β]`
/// whenever `β ≥ 1`.
pub proof fn lemma_engine_ledgers(e: &QuasarEngine, id: ID)
    requires
        e.inv(),
        e@.wave.states.contains_key(id),
    ensures
        crate::wave::distinct_voters(e@.wave.states[id].votes),
        e@.wave.states[id].yes_count + e@.wave.states[id].no_count == e@.wave.states[id].votes.len(),
        e@.wave.beta >= 1 ==> 0 <= e@.wave.states[id].confidence <= e@.wave.beta,
{
    crate::wave::lemma_ledger_invariants(&e.wave, id);
}

} // verus!
