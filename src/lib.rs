//! Quasar consensus core: a leaderless, sampling-based voting engine that
//! decides whether proposed blocks are accepted or rejected.
//!
//! The engine composes Wave (threshold voting with β-consecutive finality),
//! FPC (phase-dependent thresholds), Photon (luminance-weighted sampling),
//! Focus (confidence accumulation) and Quasar (certificate assembly).

pub mod types;
pub mod config;
pub mod idmap;
pub mod errors;
pub mod fpc;
pub mod photon;
pub mod focus;
pub mod wave;
pub mod quasar;
pub mod engine;
pub mod util;

pub use crate::types::{
    ID, NodeID, Block, Vote, VoteType, Status, Decision, Certificate, HybridSignature,
    SecurityLevel, RATIO_ONE,
};
pub use crate::config::{QuasarConfig, Config};
pub use crate::errors::ConsensusError;
pub use crate::fpc::FpcSelector;
pub use crate::photon::{Luminance, PhotonSampler};
pub use crate::focus::{Focus, FocusState, WindowedFocus};
pub use crate::wave::{Wave, WaveState};
pub use crate::quasar::{Validator, QuasarConsensus, EventHorizon};
pub use crate::engine::{QuasarEngine, Chain};
pub use crate::util::{quick_start, new_block, new_vote, generate_block_id, block_id_from_seed, version};
