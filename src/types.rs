//! Identifiers, blocks, votes, certificates and configuration.
//!
//! Ratios (quorum fractions, FPC bounds, luminance multipliers) are fixed-point
//! integers in parts per [`RATIO_ONE`]; luminance is measured in millilux;
//! timeouts in milliseconds.

use vstd::prelude::*;

verus! {

/// Relies on `std::time::SystemTime`: a wall-clock instant, carried opaquely.
#[verifier::external_type_specification]
#[verifier::external_body]
pub struct ExSystemTime(std::time::SystemTime);

/// Relies on `SystemTime::now`: reads the clock; nothing is known of the value.
pub assume_specification[ std::time::SystemTime::now ]() -> std::time::SystemTime;

/// Relies on `SystemTime`'s `Clone`: it is `Copy`, so a clone is the same instant.
pub assume_specification[ <std::time::SystemTime as Clone>::clone ](t: &std::time::SystemTime) -> (r: std::time::SystemTime)
    ensures
        r == *t,
;

/// Relies on `SystemTime::UNIX_EPOCH`: the fixed instant 1970-01-01 00:00:00 UTC.
#[verifier::external_body]
fn unix_epoch() -> std::time::SystemTime {
    std::time::SystemTime::UNIX_EPOCH
}

/// Fixed-point unit of every ratio: `RATIO_ONE` stands for 1.0.
pub const RATIO_ONE: u64 = 1_000_000_000;

/// The lowercase hexadecimal digit of a nibble.
pub open spec fn hex_digit(n: u8) -> char {
    if n < 10 {
        (n + 48) as char
    } else {
        (n + 87) as char
    }
}

/// Two lowercase hexadecimal digits per byte, most significant nibble first.
pub open spec fn hex_of(b: Seq<u8>) -> Seq<char>
    decreases b.len(),
{
    if b.len() == 0 {
        Seq::empty()
    } else {
        hex_of(b.drop_last()) + seq![hex_digit(b.last() / 16), hex_digit(b.last() % 16)]
    }
}

/// Relies on `hex::encode`: lowercase hexadecimal, two digits per byte, in order.
#[verifier::external_body]
fn hex_encode(b: &[u8]) -> (r: String)
    ensures
        r@ == hex_of(b@),
{
    hex::encode(b)
}

/// The 32 bytes of an identifier built from a slice: its first bytes, zero padded.
pub open spec fn padded_id(s: Seq<u8>) -> Seq<u8> {
    Seq::new(32, |i: int| if i < s.len() { s[i] } else { 0u8 })
}

/// A 32-byte opaque identifier; all zero denotes genesis.
#[derive(Debug, Clone, Copy, Eq, Hash)]
pub struct ID(pub [u8; 32]);

/// Node identifiers share the identifier type.
pub type NodeID = ID;

impl PartialEq for ID {
    fn eq(&self, other: &ID) -> (r: bool) {
        let mut i: usize = 0;
        while i < 32
            invariant
                0 <= i <= 32,
                forall|j: int| 0 <= j < i ==> self.0@[j] == other.0@[j],
            decreases 32 - i,
        {
            if self.0[i] != other.0[i] {
                return false;
            }
            i = i + 1;
        }
        assert(self.0@ =~= other.0@);
        proof {
            vstd::array::axiom_array_ext_equal(self.0, other.0);
        }
        true
    }
}

impl vstd::std_specs::cmp::PartialEqSpecImpl for ID {
    open spec fn obeys_eq_spec() -> bool {
        true
    }

    open spec fn eq_spec(&self, other: &ID) -> bool {
        *self == *other
    }
}

impl ID {
    /// The identifier's bytes.
    pub open spec fn bytes(self) -> Seq<u8> {
        self.0@
    }

    /// Whether every byte is zero.
    pub open spec fn is_zero_spec(self) -> bool {
        forall|i: int| 0 <= i < 32 ==> self.0@[i] == 0
    }

    /// There is one all-zero identifier.
    pub proof fn lemma_zero_unique(a: ID, b: ID)
        requires
            a.is_zero_spec(),
            b.is_zero_spec(),
        ensures
            a == b,
    {
        assert(a.0@ =~= b.0@);
        vstd::array::axiom_array_ext_equal(a.0, b.0);
    }

    pub fn new(data: [u8; 32]) -> (r: ID)
        ensures
            r.0 == data,
    {
        ID(data)
    }

    pub fn zero() -> (r: ID)
        ensures
            r.is_zero_spec(),
    {
        ID([0u8; 32])
    }

    pub fn from_slice(data: &[u8]) -> (r: ID)
        ensures
            r.0@ == padded_id(data@),
    {
        let mut arr = [0u8; 32];
        let len: usize = if data.len() < 32 { data.len() } else { 32 };
        let mut i: usize = 0;
        while i < len
            invariant
                0 <= i <= len,
                len <= 32,
                len <= data@.len(),
                len == data@.len() || len == 32,
                forall|j: int| 0 <= j < i ==> arr@[j] == data@[j],
                forall|j: int| i <= j < 32 ==> arr@[j] == 0,
            decreases len - i,
        {
            arr[i] = data[i];
            i = i + 1;
        }
        assert(arr@ =~= padded_id(data@));
        ID(arr)
    }

    pub fn to_vec(&self) -> (r: Vec<u8>)
        ensures
            r@ == self.0@,
    {
        let mut v: Vec<u8> = Vec::new();
        let mut i: usize = 0;
        while i < 32
            invariant
                0 <= i <= 32,
                v@ == self.0@.take(i as int),
            decreases 32 - i,
        {
            v.push(self.0[i]);
            i = i + 1;
            assert(v@ =~= self.0@.take(i as int));
        }
        assert(self.0@.take(32) =~= self.0@);
        v
    }

    pub fn as_bytes(&self) -> (r: &[u8; 32])
        ensures
            *r == self.0,
    {
        &self.0
    }

    pub fn is_zero(&self) -> (r: bool)
        ensures
            r == self.is_zero_spec(),
    {
        let mut i: usize = 0;
        while i < 32
            invariant
                0 <= i <= 32,
                forall|j: int| 0 <= j < i ==> self.0@[j] == 0,
            decreases 32 - i,
        {
            if self.0[i] != 0 {
                return false;
            }
            i = i + 1;
        }
        true
    }

    /// Lowercase hexadecimal rendering of the 32 bytes.
    pub fn to_hex(&self) -> (r: String)
        ensures
            r@ == hex_of(self.0@),
    {
        hex_encode(self.0.as_slice())
    }
}

impl From<[u8; 32]> for ID {
    fn from(data: [u8; 32]) -> (r: ID) {
        ID(data)
    }
}

impl vstd::std_specs::convert::FromSpecImpl<[u8; 32]> for ID {
    open spec fn obeys_from_spec() -> bool {
        true
    }

    open spec fn from_spec(v: [u8; 32]) -> ID {
        ID(v)
    }
}

/// The identifier whose bytes are [`padded_id`] of `s`.
pub open spec fn id_of_slice(s: Seq<u8>) -> ID {
    choose|id: ID| id.0@ == padded_id(s)
}

impl From<Vec<u8>> for ID {
    fn from(data: Vec<u8>) -> (r: ID) {
        let r = ID::from_slice(data.as_slice());
        proof {
            let c = id_of_slice(data@);
            assert(c.0@ == padded_id(data@));
            assert(c.0@ =~= r.0@);
            vstd::array::axiom_array_ext_equal(c.0, r.0);
        }
        r
    }
}

impl vstd::std_specs::convert::FromSpecImpl<Vec<u8>> for ID {
    open spec fn obeys_from_spec() -> bool {
        true
    }

    open spec fn from_spec(v: Vec<u8>) -> ID {
        id_of_slice(v@)
    }
}

/// Block status in consensus.
#[derive(Debug, Clone, Copy, PartialEq, Eq, Structural)]
pub enum Status {
    Unknown,
    Processing,
    Rejected,
    Accepted,
}

/// Consensus decision for one item.
#[derive(Debug, Clone, Copy, PartialEq, Eq, Structural)]
pub enum Decision {
    Undecided,
    Accept,
    Reject,
}

/// Kind of a vote: `Preference` and `Commit` prefer, `Cancel` opposes.
#[derive(Debug, Clone, Copy, PartialEq, Eq, Structural)]
pub enum VoteType {
    Preference,
    Commit,
    Cancel,
}

/// Whether a vote of this kind counts as "prefer".
pub open spec fn prefers(t: VoteType) -> bool {
    t == VoteType::Preference || t == VoteType::Commit
}

/// A block of the chain; its payload is opaque.
#[derive(Debug, Clone)]
pub struct Block {
    pub id: ID,
    pub parent_id: ID,
    pub height: u64,
    pub payload: Vec<u8>,
    pub timestamp: std::time::SystemTime,
}

impl Block {
    pub fn new(id: ID, parent_id: ID, height: u64, payload: Vec<u8>) -> (r: Block)
        ensures
            r.id == id,
            r.parent_id == parent_id,
            r.height == height,
            r.payload == payload,
    {
        Block { id, parent_id, height, payload, timestamp: std::time::SystemTime::now() }
    }

    pub fn genesis() -> (r: Block)
        ensures
            r.id.is_zero_spec(),
            r.parent_id.is_zero_spec(),
            r.height == 0,
            r.payload@.len() == 0,
    {
        Block {
            id: ID::zero(),
            parent_id: ID::zero(),
            height: 0,
            payload: Vec::new(),
            timestamp: unix_epoch(),
        }
    }
}

/// A vote on a block; the signature is opaque (possibly empty).
#[derive(Debug, Clone)]
pub struct Vote {
    pub block_id: ID,
    pub vote_type: VoteType,
    pub voter: NodeID,
    pub signature: Vec<u8>,
    pub timestamp: std::time::SystemTime,
}

impl Vote {
    pub fn new(block_id: ID, vote_type: VoteType, voter: NodeID) -> (r: Vote)
        ensures
            r.block_id == block_id,
            r.vote_type == vote_type,
            r.voter == voter,
            r.signature@.len() == 0,
    {
        Vote {
            block_id,
            vote_type,
            voter,
            signature: Vec::new(),
            timestamp: std::time::SystemTime::now(),
        }
    }

    pub fn with_signature(self, signature: Vec<u8>) -> (r: Vote)
        ensures
            r == (Vote { signature, ..self }),
    {
        let mut v = self;
        v.signature = signature;
        v
    }

    pub fn prefer(&self) -> (r: bool)
        ensures
            r == prefers(self.vote_type),
    {
        match self.vote_type {
            VoteType::Preference => true,
            VoteType::Commit => true,
            VoteType::Cancel => false,
        }
    }
}

/// Attestation that a block was accepted by a quorum of validators.
#[derive(Debug, Clone)]
pub struct Certificate {
    pub block_id: ID,
    pub height: u64,
    pub signers: Vec<NodeID>,
    /// Aggregated classical signature, opaque.
    pub aggregated_sig: Vec<u8>,
    /// Per-signer post-quantum signatures, opaque.
    pub quantum_sigs: Vec<Vec<u8>>,
    pub timestamp: std::time::SystemTime,
}

/// Hybrid signature: classical plus post-quantum, both opaque.
#[derive(Debug, Clone)]
pub struct HybridSignature {
    pub bls_sig: Vec<u8>,
    pub mldsa_sig: Vec<u8>,
    pub signer: NodeID,
}

/// Security level handed to the cryptographic provider.
#[derive(Debug, Clone, Copy, PartialEq, Eq, Structural)]
pub enum SecurityLevel {
    Low,
    Medium,
    High,
}

impl SecurityLevel {
    /// The post-quantum security category of the level.
    pub fn category(&self) -> (r: u8)
        ensures
            *self == SecurityLevel::Low ==> r == 2,
            *self == SecurityLevel::Medium ==> r == 3,
            *self == SecurityLevel::High ==> r == 5,
    {
        match self {
            SecurityLevel::Low => 2,
            SecurityLevel::Medium => 3,
            SecurityLevel::High => 5,
        }
    }
}

impl Default for SecurityLevel {
    fn default() -> (r: SecurityLevel)
        ensures
            r == SecurityLevel::Medium,
    {
        SecurityLevel::Medium
    }
}

} // verus!
