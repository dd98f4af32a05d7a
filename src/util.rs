//! Convenience constructors and identifier generation.

use vstd::prelude::*;
use crate::types::{ID, NodeID, Block, Vote, VoteType};
use crate::engine::{QuasarEngine, EngineView, is_genesis};
use crate::errors::ConsensusError;
use crate::fpc::{byte_of, put_word};

verus! {

/// One xorshift step: `s ^= s << 13; s ^= s >> 7; s ^= s << 17`.
pub open spec fn xorshift(s: u64) -> u64 {
    let a = s ^ (s << 13u64);
    let b = a ^ (a >> 7u64);
    b ^ (b << 17u64)
}

/// `n` xorshift steps from `s`.
pub open spec fn xorshift_n(s: u64, n: nat) -> u64
    decreases n,
{
    if n == 0 {
        s
    } else {
        xorshift(xorshift_n(s, (n - 1) as nat))
    }
}

/// The identifier derived from `seed`: four xorshift states, each little endian.
pub open spec fn id_from_seed(seed: u64) -> Seq<u8> {
    Seq::new(32, |i: int| byte_of(xorshift_n(seed, (i / 8 + 1) as nat), (i % 8) as nat))
}

/// Relies on `SystemTime::duration_since` with the Unix epoch: nanoseconds
/// since 1970 (zero for an earlier instant), truncated to 64 bits. It depends
/// on the clock, so nothing is promised of the value.
#[verifier::external_body]
fn nanos_since_epoch(t: &std::time::SystemTime) -> u64 {
    t.duration_since(std::time::SystemTime::UNIX_EPOCH).unwrap_or_default().as_nanos() as u64
}

/// The identifier that [`generate_block_id`] derives from a clock reading.
pub fn block_id_from_seed(seed: u64) -> (r: ID)
    ensures
        r.0@ == id_from_seed(seed),
{
    let mut state: u64 = seed;
    let mut bytes = [0u8; 32];
    let mut i: usize = 0;
    while i < 4
        invariant
            i <= 4,
            state == xorshift_n(seed, i as nat),
            forall|j: int| 0 <= j < 8 * i ==> bytes@[j] == byte_of(xorshift_n(seed, (j / 8 + 1) as nat), (j % 8) as nat),
        decreases 4 - i,
    {
        state = state ^ (state << 13u64);
        state = state ^ (state >> 7u64);
        state = state ^ (state << 17u64);
        let ghost before = bytes@;
        put_word(&mut bytes, i, state);
        proof {
            assert forall|j: int| 0 <= j < 8 * (i + 1) implies bytes@[j] == byte_of(
                xorshift_n(seed, (j / 8 + 1) as nat),
                (j % 8) as nat,
            ) by {
                if j < 8 * i {
                    assert(bytes@[j] == before[j]);
                } else {
                    let t = j - 8 * i;
                    assert(j == 8 * i + t);
                    assert(j / 8 == i);
                    assert(bytes@[8 * i + t] == byte_of(state, t as nat));
                }
            }
        }
        i = i + 1;
    }
    assert(bytes@ =~= id_from_seed(seed));
    ID::new(bytes)
}

/// A fresh identifier seeded from the wall clock.
pub fn generate_block_id() -> (r: ID)
    ensures
        exists|seed: u64| r.0@ == #[trigger] id_from_seed(seed),
{
    let now = std::time::SystemTime::now();
    let seed = nanos_since_epoch(&now);
    block_id_from_seed(seed)
}

/// The library's version.
pub fn version() -> (r: &'static str)
    ensures
        r@ == "1.0.0"@,
{
    "1.0.0"
}

/// A started engine with the balanced profile.
pub fn quick_start() -> (r: Result<QuasarEngine, ConsensusError>)
    ensures
        match r {
            Ok(e) => e.inv() && e@.started && crate::config::is_default_profile(e.config_spec()) && e@.height == 0
                && exists|g: Block| #![auto] is_genesis(g) && e@.blocks == Map::<ID, Block>::empty().insert(g.id, g),
            Err(_) => false,
        },
{
    let mut engine = QuasarEngine::default();
    match engine.start() {
        Ok(()) => Ok(engine),
        Err(e) => Err(e),
    }
}

pub fn new_block(id: ID, parent_id: ID, height: u64, payload: Vec<u8>) -> (r: Block)
    ensures
        r.id == id,
        r.parent_id == parent_id,
        r.height == height,
        r.payload == payload,
{
    Block::new(id, parent_id, height, payload)
}

pub fn new_vote(block_id: ID, vote_type: VoteType, voter: NodeID) -> (r: Vote)
    ensures
        r.block_id == block_id,
        r.vote_type == vote_type,
        r.voter == voter,
        r.signature@.len() == 0,
{
    Vote::new(block_id, vote_type, voter)
}

} // verus!
