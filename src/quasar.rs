//! Quasar certifier: validator set, certificate assembly and verification.

use vstd::prelude::*;
use crate::types::{ID, NodeID, Vote, Certificate, SecurityLevel};
use crate::config::QuasarConfig;
use crate::errors::ConsensusError;
use crate::idmap::IdMap;

verus! {

/// A registered validator; `weight` is advisory.
#[derive(Debug, Clone, Copy)]
pub struct Validator {
    pub id: NodeID,
    pub weight: u64,
    pub active: bool,
}

/// The mathematical content of a [`Certificate`].
pub struct CertificateView {
    pub block_id: ID,
    pub height: u64,
    pub signers: Seq<ID>,
    pub aggregated_sig: Seq<u8>,
    pub quantum_sigs: Seq<Seq<u8>>,
    pub timestamp: std::time::SystemTime,
}

impl View for Certificate {
    type V = CertificateView;

    open spec fn view(&self) -> CertificateView {
        CertificateView {
            block_id: self.block_id,
            height: self.height,
            signers: self.signers@,
            aggregated_sig: self.aggregated_sig@,
            quantum_sigs: self.quantum_sigs@.map_values(|s: Vec<u8>| s@),
            timestamp: self.timestamp,
        }
    }
}

/// The certificate's signers: in vote order, each voter that is a validator,
/// once.
pub open spec fn signers_of(votes: Seq<Vote>, vals: Map<ID, Validator>) -> Seq<ID>
    decreases votes.len(),
{
    if votes.len() == 0 {
        Seq::empty()
    } else {
        let s = signers_of(votes.drop_last(), vals);
        let v = votes.last();
        if vals.contains_key(v.voter) && !s.contains(v.voter) {
            s.push(v.voter)
        } else {
            s
        }
    }
}

/// The post-quantum signatures of the signers' votes, aligned with [`signers_of`].
pub open spec fn quantum_sigs_of(votes: Seq<Vote>, vals: Map<ID, Validator>) -> Seq<Seq<u8>>
    decreases votes.len(),
{
    if votes.len() == 0 {
        Seq::empty()
    } else {
        let s = signers_of(votes.drop_last(), vals);
        let q = quantum_sigs_of(votes.drop_last(), vals);
        let v = votes.last();
        if vals.contains_key(v.voter) && !s.contains(v.voter) {
            q.push(v.signature@)
        } else {
            q
        }
    }
}

/// The aggregated classical signature placeholder handed back by the core:
/// 48 zero bytes, the size of a BLS signature.
pub open spec fn aggregate_placeholder() -> Seq<u8> {
    Seq::new(48, |i: int| 0u8)
}

/// Whether `votes` carry a quorum of distinct registered validators.
pub open spec fn has_cert_quorum(votes: Seq<Vote>, vals: Map<ID, Validator>, threshold: nat) -> bool {
    votes.len() >= threshold && signers_of(votes, vals).len() >= threshold
}

/// Whether `c` is the certificate built for `block_id` at `height` from `votes`.
pub open spec fn certifies(c: CertificateView, block_id: ID, height: u64, votes: Seq<Vote>, vals: Map<ID, Validator>) -> bool {
    &&& c.block_id == block_id
    &&& c.height == height
    &&& c.signers == signers_of(votes, vals)
    &&& c.quantum_sigs == quantum_sigs_of(votes, vals)
    &&& c.aggregated_sig == aggregate_placeholder()
}

/// Whether a certificate passes verification against a validator set.
pub open spec fn verifies(c: CertificateView, vals: Map<ID, Validator>, threshold: nat) -> bool {
    c.signers.len() >= threshold && forall|i: int| 0 <= i < c.signers.len() ==> vals.contains_key(#[trigger] c.signers[i])
}

/// Every signer is a validator and appears once.
pub proof fn lemma_signers(votes: Seq<Vote>, vals: Map<ID, Validator>)
    ensures
        signers_of(votes, vals).no_duplicates(),
        forall|i: int| 0 <= i < signers_of(votes, vals).len() ==> vals.contains_key(#[trigger] signers_of(votes, vals)[i]),
        signers_of(votes, vals).len() == quantum_sigs_of(votes, vals).len(),
        signers_of(votes, vals).len() <= votes.len(),
    decreases votes.len(),
{
    if votes.len() > 0 {
        lemma_signers(votes.drop_last(), vals);
    }
}

/// Abstract content of a [`QuasarConsensus`].
pub struct QuasarView {
    pub validators: Map<ID, Validator>,
    pub threshold: nat,
    pub security_level: SecurityLevel,
    pub finalized: Map<ID, CertificateView>,
}

/// Copies a byte string.
fn copy_bytes(v: &Vec<u8>) -> (r: Vec<u8>)
    ensures
        r@ == v@,
{
    let mut r: Vec<u8> = Vec::new();
    let mut i: usize = 0;
    while i < v.len()
        invariant
            i <= v@.len(),
            r@ == v@.take(i as int),
        decreases v@.len() - i,
    {
        r.push(v[i]);
        i = i + 1;
        assert(r@ =~= v@.take(i as int));
    }
    assert(v@.take(v@.len() as int) =~= v@);
    r
}

impl Certificate {
    /// A certificate with the same content.
    pub fn duplicate(&self) -> (r: Certificate)
        ensures
            r@ == self@,
    {
        let mut sigs: Vec<Vec<u8>> = Vec::new();
        let mut i: usize = 0;
        while i < self.quantum_sigs.len()
            invariant
                i <= self.quantum_sigs@.len(),
                sigs@.len() == i,
                forall|t: int| 0 <= t < i ==> sigs@[t]@ == self.quantum_sigs@[t]@,
            decreases self.quantum_sigs@.len() - i,
        {
            sigs.push(copy_bytes(&self.quantum_sigs[i]));
            i = i + 1;
        }
        assert(sigs@.map_values(|s: Vec<u8>| s@) =~= self.quantum_sigs@.map_values(|s: Vec<u8>| s@));
        let mut signers: Vec<NodeID> = Vec::new();
        let mut j: usize = 0;
        while j < self.signers.len()
            invariant
                j <= self.signers@.len(),
                signers@ == self.signers@.take(j as int),
            decreases self.signers@.len() - j,
        {
            signers.push(self.signers[j]);
            j = j + 1;
            assert(signers@ =~= self.signers@.take(j as int));
        }
        assert(self.signers@.take(j as int) =~= self.signers@);
        Certificate {
            block_id: self.block_id,
            height: self.height,
            signers,
            aggregated_sig: copy_bytes(&self.aggregated_sig),
            quantum_sigs: sigs,
            timestamp: self.timestamp.clone(),
        }
    }
}

/// Hybrid certifier: holds the validator set, the quorum count `⌈α·k⌉` and the
/// certificates minted so far.
pub struct QuasarConsensus {
    validators: IdMap<Validator>,
    threshold: usize,
    security_level: SecurityLevel,
    finalized: IdMap<Certificate>,
}

impl View for QuasarConsensus {
    type V = QuasarView;

    closed spec fn view(&self) -> QuasarView {
        QuasarView {
            validators: self.validators@,
            threshold: self.threshold as nat,
            security_level: self.security_level,
            finalized: self.finalized@.map_values(|c: Certificate| c@),
        }
    }
}

impl QuasarConsensus {
    pub closed spec fn inv(&self) -> bool {
        self.validators.wf() && self.finalized.wf()
    }

    pub fn new(config: &QuasarConfig) -> (r: QuasarConsensus)
        ensures
            r.inv(),
            r@.validators.dom().finite(),
            r@.validators == Map::<ID, Validator>::empty(),
            r@.threshold == crate::config::ratio_count(config.alpha, config.k),
            r@.security_level == config.security_level,
            r@.finalized == Map::<ID, CertificateView>::empty(),
    {
        let r = QuasarConsensus {
            validators: IdMap::new(),
            threshold: config.alpha_count(),
            security_level: config.security_level,
            finalized: IdMap::new(),
        };
        assert(r@.finalized =~= Map::<ID, CertificateView>::empty());
        r
    }

    /// Registers (or re-registers) an active validator.
    pub fn add_validator(&mut self, id: NodeID, weight: u64)
        requires
            old(self).inv(),
        ensures
            final(self).inv(),
            final(self)@.validators.dom().finite(),
            final(self)@ == (QuasarView {
                validators: old(self)@.validators.insert(id, Validator { id, weight, active: true }),
                ..old(self)@
            }),
    {
        self.validators.insert(id, Validator { id, weight, active: true });
        proof {
            self.validators.lemma_finite();
        }
    }

    pub fn remove_validator(&mut self, id: &NodeID)
        requires
            old(self).inv(),
        ensures
            final(self).inv(),
            final(self)@.validators.dom().finite(),
            final(self)@ == (QuasarView { validators: old(self)@.validators.remove(*id), ..old(self)@ }),
    {
        let _ = self.validators.remove(id);
        proof {
            self.validators.lemma_finite();
        }
    }

    /// The validator set is finite.
    pub proof fn lemma_validators_finite(&self)
        requires
            self.inv(),
        ensures
            self@.validators.dom().finite(),
    {
        self.validators.lemma_finite();
    }

    pub fn validator_count(&self) -> (r: usize)
        requires
            self.inv(),
        ensures
            r == self@.validators.len(),
    {
        self.validators.len()
    }

    /// Whether at least the quorum count of validators is registered.
    pub fn has_quorum(&self) -> (r: bool)
        requires
            self.inv(),
        ensures
            r == (self@.validators.len() >= self@.threshold),
    {
        self.validators.len() >= self.threshold
    }

    /// Signers and their post-quantum signatures, as [`signers_of`] and
    /// [`quantum_sigs_of`] give them.
    fn collect_signers(&self, votes: &[Vote]) -> (r: (Vec<NodeID>, Vec<Vec<u8>>))
        requires
            self.inv(),
        ensures
            r.0@ == signers_of(votes@, self@.validators),
            r.1@.map_values(|s: Vec<u8>| s@) == quantum_sigs_of(votes@, self@.validators),
    {
        let mut signers: Vec<NodeID> = Vec::new();
        let mut sigs: Vec<Vec<u8>> = Vec::new();
        let mut i: usize = 0;
        while i < votes.len()
            invariant
                self.inv(),
                i <= votes@.len(),
                signers@ == signers_of(votes@.take(i as int), self@.validators),
                sigs@.map_values(|s: Vec<u8>| s@) == quantum_sigs_of(votes@.take(i as int), self@.validators),
            decreases votes@.len() - i,
        {
            let v = &votes[i];
            proof {
                assert(votes@.take(i + 1).drop_last() =~= votes@.take(i as int));
            }
            if self.validators.contains_key(&v.voter) {
                let mut seen = false;
                let mut j: usize = 0;
                while j < signers.len()
                    invariant
                        j <= signers@.len(),
                        seen == (exists|t: int| 0 <= t < j && signers@[t] == v.voter),
                    decreases signers@.len() - j,
                {
                    if signers[j] == v.voter {
                        seen = true;
                    }
                    j = j + 1;
                }
                if !seen {
                    signers.push(v.voter);
                    sigs.push(copy_bytes(&v.signature));
                }
            }
            i = i + 1;
            proof {
                assert(sigs@.map_values(|s: Vec<u8>| s@) =~= quantum_sigs_of(votes@.take(i as int), self@.validators));
            }
        }
        assert(votes@.take(votes@.len() as int) =~= votes@);
        (signers, sigs)
    }

    /// Builds and records a certificate for `block_id` from `votes`; fails with
    /// `NoQuorum` when fewer than the quorum count of votes, or of distinct
    /// registered validators among their voters, are given.
    pub fn create_certificate(&mut self, block_id: ID, height: u64, votes: &[Vote]) -> (r: Result<Certificate, ConsensusError>)
        requires
            old(self).inv(),
        ensures
            final(self).inv(),
            final(self)@.validators == old(self)@.validators,
            final(self)@.threshold == old(self)@.threshold,
            final(self)@.security_level == old(self)@.security_level,
            has_cert_quorum(votes@, old(self)@.validators, old(self)@.threshold) ==> (match r {
                Ok(c) => certifies(c@, block_id, height, votes@, old(self)@.validators)
                    && final(self)@.finalized == old(self)@.finalized.insert(block_id, c@),
                Err(_) => false,
            }),
            !has_cert_quorum(votes@, old(self)@.validators, old(self)@.threshold) ==> r == Err::<Certificate, ConsensusError>(ConsensusError::NoQuorum)
                && final(self)@ == old(self)@,
    {
        if votes.len() < self.threshold {
            return Err(ConsensusError::NoQuorum);
        }
        let (signers, quantum_sigs) = self.collect_signers(votes);
        if signers.len() < self.threshold {
            return Err(ConsensusError::NoQuorum);
        }
        let cert = Certificate {
            block_id,
            height,
            signers,
            aggregated_sig: vec![0u8; 48],
            quantum_sigs,
            timestamp: std::time::SystemTime::now(),
        };
        assert(cert@.aggregated_sig =~= aggregate_placeholder());
        let stored = cert.duplicate();
        self.finalized.insert(block_id, stored);
        proof {
            assert(self@.finalized =~= old(self)@.finalized.insert(block_id, cert@));
        }
        Ok(cert)
    }

    /// Whether `cert` names at least the quorum count of signers, all of them
    /// registered validators. Signatures are left to the cryptographic provider.
    pub fn verify_certificate(&self, cert: &Certificate) -> (r: bool)
        requires
            self.inv(),
        ensures
            r == verifies(cert@, self@.validators, self@.threshold),
    {
        if cert.signers.len() < self.threshold {
            return false;
        }
        let mut i: usize = 0;
        while i < cert.signers.len()
            invariant
                self.inv(),
                i <= cert.signers@.len(),
                forall|j: int| 0 <= j < i ==> self@.validators.contains_key(#[trigger] cert.signers@[j]),
            decreases cert.signers@.len() - i,
        {
            if !self.validators.contains_key(&cert.signers[i]) {
                return false;
            }
            i = i + 1;
        }
        true
    }

    /// Whether a certificate was recorded for the block.
    pub fn is_finalized(&self, block_id: &ID) -> (r: bool)
        requires
            self.inv(),
        ensures
            r == self@.finalized.contains_key(*block_id),
    {
        self.finalized.contains_key(block_id)
    }

    pub fn get_certificate(&self, block_id: &ID) -> (r: Option<&Certificate>)
        requires
            self.inv(),
        ensures
            match r {
                Some(c) => self@.finalized.contains_key(*block_id) && c@ == self@.finalized[*block_id],
                None => !self@.finalized.contains_key(*block_id),
            },
    {
        self.finalized.get(block_id)
    }
}

/// A certificate that `create_certificate` hands back passes
/// `verify_certificate` against the same validator set.
pub proof fn lemma_created_certificate_verifies(c: CertificateView, block_id: ID, height: u64, votes: Seq<Vote>, vals: Map<ID, Validator>, threshold: nat)
    requires
        has_cert_quorum(votes, vals, threshold),
        certifies(c, block_id, height, votes, vals),
    ensures
        verifies(c, vals, threshold),
{
    lemma_signers(votes, vals);
}

/// Multi-chain aggregation: blocks accepted per registered chain, over one certifier.
pub struct EventHorizon {
    quasar: QuasarConsensus,
    chains: Vec<(String, Vec<ID>)>,
    height: u64,
}

impl EventHorizon {
    /// The registered chains' names, in registration order.
    pub closed spec fn chain_names(&self) -> Seq<Seq<char>> {
        self.chains@.map_values(|c: (String, Vec<ID>)| c.0@)
    }

    /// Position of a registered chain.
    pub closed spec fn chain_index(&self, n: Seq<char>) -> int {
        choose|i: int| 0 <= i < self.chains@.len() && self.chains@[i].0@ == n
    }

    /// Blocks accepted on each registered chain, in order.
    pub closed spec fn chain_blocks(&self) -> Map<Seq<char>, Seq<ID>> {
        Map::new(
            |n: Seq<char>| exists|i: int| 0 <= i < self.chains@.len() && self.chains@[i].0@ == n,
            |n: Seq<char>| self.chains@[self.chain_index(n)].1@,
        )
    }

    pub closed spec fn height_spec(&self) -> u64 {
        self.height
    }

    pub closed spec fn quasar_spec(&self) -> QuasarConsensus {
        self.quasar
    }

    pub closed spec fn inv(&self) -> bool {
        &&& forall|i: int, j: int|
            0 <= i < self.chains@.len() && 0 <= j < self.chains@.len() && i != j
                ==> self.chains@[i].0@ != self.chains@[j].0@
        &&& self.quasar.inv()
    }

    proof fn lemma_chain_at(&self, i: int)
        requires
            self.inv(),
            0 <= i < self.chains@.len(),
        ensures
            self.chain_blocks().contains_key(self.chains@[i].0@),
            self.chain_index(self.chains@[i].0@) == i,
            self.chain_blocks()[self.chains@[i].0@] == self.chains@[i].1@,
    {
        let n = self.chains@[i].0@;
        assert(self.chain_blocks().contains_key(n));
    }

    pub fn new(config: &QuasarConfig) -> (r: EventHorizon)
        ensures
            r.inv(),
            r.height_spec() == 0,
            r.chain_blocks() == Map::<Seq<char>, Seq<ID>>::empty(),
            r.quasar_spec()@.validators == Map::<ID, Validator>::empty(),
            r.quasar_spec()@.threshold == crate::config::ratio_count(config.alpha, config.k),
            r.quasar_spec()@.finalized == Map::<ID, CertificateView>::empty(),
    {
        let r = EventHorizon { quasar: QuasarConsensus::new(config), chains: Vec::new(), height: 0 };
        assert(r.chain_blocks() =~= Map::<Seq<char>, Seq<ID>>::empty());
        r
    }

    /// Position of a chain by name.
    fn find_chain(&self, name: &String) -> (r: Option<usize>)
        requires
            self.inv(),
        ensures
            match r {
                Some(i) => i < self.chains@.len() && self.chains@[i as int].0@ == name@,
                None => !self.chain_blocks().contains_key(name@),
            },
    {
        let mut i: usize = 0;
        while i < self.chains.len()
            invariant
                self.inv(),
                i <= self.chains@.len(),
                forall|j: int| 0 <= j < i ==> self.chains@[j].0@ != name@,
            decreases self.chains@.len() - i,
        {
            if self.chains[i].0 == *name {
                return Some(i);
            }
            i = i + 1;
        }
        None
    }

    /// Registers a chain with no blocks; a known chain is left as it is.
    pub fn register_chain(&mut self, chain_id: String)
        requires
            old(self).inv(),
        ensures
            final(self).inv(),
            final(self).height_spec() == old(self).height_spec(),
            final(self).quasar_spec() == old(self).quasar_spec(),
            final(self).chain_blocks() == if old(self).chain_blocks().contains_key(chain_id@) {
                old(self).chain_blocks()
            } else {
                old(self).chain_blocks().insert(chain_id@, Seq::empty())
            },
    {
        match self.find_chain(&chain_id) {
            Some(i) => {
                proof {
                    self.lemma_chain_at(i as int);
                }
            },
            None => {
                let ghost name = chain_id@;
                let ghost n0 = self.chains@.len();
                self.chains.push((chain_id, Vec::new()));
                proof {
                    assert forall|a: int, b: int|
                        0 <= a < self.chains@.len() && 0 <= b < self.chains@.len() && a != b
                        implies self.chains@[a].0@ != self.chains@[b].0@ by {
                        if a == n0 {
                            assert(!old(self).chain_blocks().contains_key(name));
                        } else if b == n0 {
                            assert(!old(self).chain_blocks().contains_key(name));
                        }
                    }
                    assert forall|n: Seq<char>| #![auto] self.chain_blocks().contains_key(n)
                        == old(self).chain_blocks().insert(name, Seq::empty()).contains_key(n) by {
                        if self.chain_blocks().contains_key(n) && n != name {
                            let j = choose|j: int| 0 <= j < self.chains@.len() && self.chains@[j].0@ == n;
                            assert(j < n0);
                            assert(old(self).chains@[j].0@ == n);
                        }
                        if old(self).chain_blocks().contains_key(n) {
                            let j = choose|j: int| 0 <= j < old(self).chains@.len() && old(self).chains@[j].0@ == n;
                            assert(self.chains@[j].0@ == n);
                        }
                        if n == name {
                            assert(self.chains@[n0 as int].0@ == n);
                        }
                    }
                    assert forall|n: Seq<char>| #![auto] self.chain_blocks().contains_key(n)
                        implies self.chain_blocks()[n] == old(self).chain_blocks().insert(name, Seq::empty())[n] by {
                        let j = choose|j: int| 0 <= j < self.chains@.len() && self.chains@[j].0@ == n;
                        self.lemma_chain_at(j);
                        if n != name {
                            assert(j < n0);
                            old(self).lemma_chain_at(j);
                        } else {
                            self.lemma_chain_at(n0 as int);
                        }
                    }
                    assert(self.chain_blocks() =~= old(self).chain_blocks().insert(name, Seq::empty()));
                }
            },
        }
    }

    /// Appends a block to a registered chain and raises the height; an unknown
    /// chain changes nothing.
    pub fn accept_block(&mut self, chain_id: &str, block_id: ID)
        requires
            old(self).inv(),
            old(self).height_spec() < u64::MAX,
        ensures
            final(self).inv(),
            final(self).quasar_spec() == old(self).quasar_spec(),
            old(self).chain_blocks().contains_key(chain_id@) ==> final(self).height_spec() == old(self).height_spec() + 1
                && final(self).chain_blocks() == old(self).chain_blocks().insert(
                chain_id@,
                old(self).chain_blocks()[chain_id@].push(block_id),
            ),
            !old(self).chain_blocks().contains_key(chain_id@) ==> final(self).height_spec() == old(self).height_spec()
                && final(self).chain_blocks() == old(self).chain_blocks(),
    {
        let name = chain_id.to_owned();
        match self.find_chain(&name) {
            Some(i) => {
                proof {
                    old(self).lemma_chain_at(i as int);
                }
                let entry = &mut self.chains[i];
                entry.1.push(block_id);
                self.height = self.height + 1;
                proof {
                    let n = name@;
                    assert forall|a: int, b: int|
                        0 <= a < self.chains@.len() && 0 <= b < self.chains@.len() && a != b
                        implies self.chains@[a].0@ != self.chains@[b].0@ by {
                        assert(self.chains@[a].0 == old(self).chains@[a].0);
                        assert(self.chains@[b].0 == old(self).chains@[b].0);
                    }
                    assert forall|m: Seq<char>| #![auto] self.chain_blocks().contains_key(m)
                        == old(self).chain_blocks().contains_key(m) by {
                        if self.chain_blocks().contains_key(m) {
                            let j = choose|j: int| 0 <= j < self.chains@.len() && self.chains@[j].0@ == m;
                            assert(old(self).chains@[j].0@ == m);
                        }
                        if old(self).chain_blocks().contains_key(m) {
                            let j = choose|j: int| 0 <= j < old(self).chains@.len() && old(self).chains@[j].0@ == m;
                            assert(self.chains@[j].0@ == m);
                        }
                    }
                    assert forall|m: Seq<char>| #![auto] self.chain_blocks().contains_key(m)
                        implies self.chain_blocks()[m] == old(self).chain_blocks().insert(
                        n,
                        old(self).chain_blocks()[n].push(block_id),
                    )[m] by {
                        let j = choose|j: int| 0 <= j < self.chains@.len() && self.chains@[j].0@ == m;
                        self.lemma_chain_at(j);
                        assert(old(self).chains@[j].0@ == m);
                        old(self).lemma_chain_at(j);
                        if m == n {
                            assert(j == i);
                        }
                    }
                    assert(self.chain_blocks() =~= old(self).chain_blocks().insert(
                        n,
                        old(self).chain_blocks()[n].push(block_id),
                    ));
                }
            },
            None => {},
        }
    }

    pub fn height(&self) -> (r: u64)
        ensures
            r == self.height_spec(),
    {
        self.height
    }

    pub fn quasar(&self) -> (r: &QuasarConsensus)
        ensures
            *r == self.quasar_spec(),
    {
        &self.quasar
    }

    pub fn quasar_mut(&mut self) -> (r: &mut QuasarConsensus)
        requires
            old(self).inv(),
        ensures
            *r == old(self).quasar_spec(),
            final(self).quasar_spec() == *final(r),
            final(self).height_spec() == old(self).height_spec(),
            final(self).chain_blocks() == old(self).chain_blocks(),
            final(r).inv() ==> final(self).inv(),
    {
        &mut self.quasar
    }
}

} // verus!
