use lux_consensus::focus::{Focus, WindowedFocus};
use lux_consensus::photon::{Luminance, PhotonSampler};
use lux_consensus::quasar::{EventHorizon, QuasarConsensus};
use lux_consensus::wave::Wave;
use lux_consensus::{
    block_id_from_seed, generate_block_id, new_block, new_vote, quick_start, version, Block,
    ConsensusError, Decision, FpcSelector, NodeID, QuasarConfig, QuasarEngine, Status, Vote,
    VoteType, ID, RATIO_ONE,
};

fn fast_config() -> QuasarConfig {
    let mut c = QuasarConfig::testnet();
    c.k = 5;
    c.alpha = 600_000_000;
    c.beta = 1;
    c
}

fn block_b() -> Block {
    Block::new(ID::from([1u8; 32]), ID::zero(), 1, vec![])
}

fn started(config: QuasarConfig) -> QuasarEngine {
    let mut e = QuasarEngine::new(config);
    e.start().unwrap();
    e
}

fn vote(block: &ID, t: VoteType, voter: u8) -> Vote {
    Vote::new(block.clone(), t, NodeID::from([voter; 32]))
}

#[test]
fn scenario_fast_accept() {
    let mut e = started(fast_config());
    let b = block_b();
    e.add(b.clone()).unwrap();
    for i in 0..5u8 {
        e.record_vote(vote(&b.id, VoteType::Preference, i)).unwrap();
    }
    assert!(e.is_accepted(&b.id));
    assert_eq!(e.get_status(&b.id), Status::Accepted);
    assert_eq!(e.height(), 1);
}

#[test]
fn scenario_reject_on_opposition() {
    let mut e = started(fast_config());
    let b = block_b();
    e.add(b.clone()).unwrap();
    for i in 0..5u8 {
        e.record_vote(vote(&b.id, VoteType::Cancel, i)).unwrap();
    }
    assert_eq!(e.get_status(&b.id), Status::Rejected);
    assert!(!e.is_accepted(&b.id));
    assert_eq!(e.height(), 0);

    let mut w = Wave::new(fast_config());
    for i in 0..5u8 {
        w.record_vote(vote(&b.id, VoteType::Cancel, i));
    }
    assert_eq!(w.decision(&b.id), Decision::Reject);
}

#[test]
fn scenario_uncertain_zone() {
    let mut c = QuasarConfig::testnet();
    c.k = 10;
    c.alpha = 700_000_000;
    c.beta = 3;
    let b = block_b();
    let mut w = Wave::new(c);
    let mut e = started(c);
    e.add(b.clone()).unwrap();
    for i in 0..10u8 {
        let t = if i < 5 { VoteType::Preference } else { VoteType::Cancel };
        w.record_vote(vote(&b.id, t, i));
        e.record_vote(vote(&b.id, t, i)).unwrap();
    }
    let st = w.state(&b.id).unwrap();
    assert_eq!(st.confidence, 0);
    assert!(!st.decided);
    assert_eq!(st.decision, Decision::Undecided);
    assert_eq!(e.get_status(&b.id), Status::Processing);
}

#[test]
fn scenario_duplicate_voter_ignored() {
    let b = block_b();
    let mut w = Wave::new(fast_config());
    let mut e = started(fast_config());
    e.add(b.clone()).unwrap();
    let mut votes = vec![vote(&b.id, VoteType::Preference, 9), vote(&b.id, VoteType::Preference, 9)];
    for i in 1..5u8 {
        votes.push(vote(&b.id, VoteType::Preference, i));
    }
    for v in votes {
        w.record_vote(v.clone());
        e.record_vote(v).unwrap();
    }
    let st = w.state(&b.id).unwrap();
    assert_eq!(st.yes_count, 5);
    assert_eq!(st.votes.len(), 5);
    assert_eq!(e.get_status(&b.id), Status::Accepted);
}

#[test]
fn scenario_unknown_block_vote() {
    let mut e = started(QuasarConfig::testnet());
    let r = e.record_vote(vote(&ID::from([0xFFu8; 32]), VoteType::Preference, 1));
    assert_eq!(r, Err(ConsensusError::BlockNotFound));
}

#[test]
fn scenario_fpc_determinism() {
    let seed = *b"lux-consensus-fpc-default-seed!!";
    let a = FpcSelector::new(500_000_000, 800_000_000, seed);
    let b = FpcSelector::new(500_000_000, 800_000_000, seed);
    for phase in [0u64, 1, 100] {
        let t = a.theta(phase);
        assert_eq!(t, b.theta(phase));
        assert_eq!(t, a.theta(phase));
        assert!(t >= 500_000_000 && t <= 800_000_000);
        let k = a.select_threshold(phase, 20);
        assert!((10..=16).contains(&k));
        assert_eq!(k, b.select_threshold(phase, 20));
    }
}

#[test]
fn fpc_range_holds_for_many_phases() {
    let f = FpcSelector::new(300_000_000, 400_000_000, [7u8; 32]);
    for phase in 0..2000u64 {
        let t = f.theta(phase);
        assert!(t >= 300_000_000 && t <= 400_000_000);
    }
    assert_eq!(f.range(), (300_000_000, 400_000_000));
}

#[test]
fn fpc_invalid_bounds_are_clamped() {
    let f = FpcSelector::new(0, 2 * RATIO_ONE, [0u8; 32]);
    assert_eq!(f.range(), (500_000_000, 800_000_000));
    let g = FpcSelector::new(600_000_000, 2 * RATIO_ONE, [0u8; 32]);
    assert_eq!(g.range(), (600_000_000, 800_000_000));
    let h = FpcSelector::new(900_000_000, 100, [0u8; 32]);
    assert_eq!(h.range(), (500_000_000, 800_000_000));
}

#[test]
fn decided_block_is_frozen() {
    let mut e = started(fast_config());
    let b = block_b();
    e.add(b.clone()).unwrap();
    for i in 0..5u8 {
        e.record_vote(vote(&b.id, VoteType::Preference, i)).unwrap();
    }
    assert_eq!(e.get_status(&b.id), Status::Accepted);
    for i in 10..20u8 {
        e.record_vote(vote(&b.id, VoteType::Cancel, i)).unwrap();
    }
    assert_eq!(e.get_status(&b.id), Status::Accepted);

    let mut w = Wave::new(fast_config());
    for i in 0..5u8 {
        w.record_vote(vote(&b.id, VoteType::Preference, i));
    }
    assert!(!w.record_vote(vote(&b.id, VoteType::Cancel, 30)));
    let st = w.state(&b.id).unwrap();
    assert!(st.decided);
    assert_eq!(st.decision, Decision::Accept);
    assert_eq!(st.votes.len(), 5);
}

#[test]
fn counters_match_ledger() {
    let mut c = QuasarConfig::testnet();
    c.k = 100;
    let mut w = Wave::new(c);
    let b = block_b();
    for i in 0..30u8 {
        let t = match i % 3 {
            0 => VoteType::Preference,
            1 => VoteType::Commit,
            _ => VoteType::Cancel,
        };
        w.record_vote(vote(&b.id, t, i));
        w.record_vote(vote(&b.id, t, i));
    }
    let st = w.state(&b.id).unwrap();
    assert_eq!(st.yes_count, 20);
    assert_eq!(st.no_count, 10);
    assert_eq!(st.yes_count + st.no_count, st.votes.len());
}

#[test]
fn confidence_stays_within_beta() {
    let mut c = QuasarConfig::testnet();
    c.k = 1;
    c.beta = 3;
    let mut w = Wave::new(c);
    let b = block_b();
    let mut decided_at = None;
    for i in 0..10u8 {
        if w.record_vote(vote(&b.id, VoteType::Preference, i)) {
            decided_at = Some(i);
        }
        let st = w.state(&b.id).unwrap();
        assert!(st.confidence <= 3);
    }
    assert_eq!(decided_at, Some(2));
    assert_eq!(w.state(&b.id).unwrap().confidence, 3);
}

#[test]
fn height_never_decreases() {
    let mut e = started(fast_config());
    let high = Block::new(ID::from([5u8; 32]), ID::zero(), 5, vec![]);
    let low = Block::new(ID::from([3u8; 32]), ID::zero(), 3, vec![]);
    e.add(high.clone()).unwrap();
    e.add(low.clone()).unwrap();
    for i in 0..5u8 {
        e.record_vote(vote(&high.id, VoteType::Preference, i)).unwrap();
    }
    assert_eq!(e.height(), 5);
    for i in 0..5u8 {
        e.record_vote(vote(&low.id, VoteType::Preference, i)).unwrap();
    }
    assert!(e.is_accepted(&low.id));
    assert_eq!(e.height(), 5);
}

#[test]
fn add_twice_is_idempotent() {
    let mut c = fast_config();
    c.beta = 3;
    let mut e = started(c);
    let b = block_b();
    e.add(b.clone()).unwrap();
    e.add(b.clone()).unwrap();
    assert_eq!(e.get_status(&b.id), Status::Processing);
    let mut w = Wave::new(c);
    w.get_or_create_state(&b.id);
    w.record_vote(vote(&b.id, VoteType::Preference, 1));
    let before = w.state(&b.id).unwrap().votes.len();
    w.get_or_create_state(&b.id);
    assert_eq!(w.state(&b.id).unwrap().votes.len(), before);
}

#[test]
fn start_twice_fails_without_change() {
    let mut e = started(QuasarConfig::testnet());
    assert_eq!(e.get_status(&ID::zero()), Status::Accepted);
    assert_eq!(e.start(), Err(ConsensusError::AlreadyStarted));
    assert_eq!(e.get_status(&ID::zero()), Status::Accepted);
    assert_eq!(e.height(), 0);
}

#[test]
fn not_initialized_before_start() {
    let mut e = QuasarEngine::testnet();
    let b = block_b();
    assert_eq!(e.add(b.clone()), Err(ConsensusError::NotInitialized));
    assert_eq!(e.record_vote(vote(&b.id, VoteType::Preference, 1)), Err(ConsensusError::NotInitialized));
    assert_eq!(e.get_status(&b.id), Status::Unknown);
    e.start().unwrap();
    e.stop().unwrap();
    assert_eq!(e.add(b), Err(ConsensusError::NotInitialized));
}

#[test]
fn batch_counts_successes() {
    let mut e = started(fast_config());
    let b = block_b();
    e.add(b.clone()).unwrap();
    let mut votes: Vec<Vote> = (0..5u8).map(|i| vote(&b.id, VoteType::Preference, i)).collect();
    votes.push(vote(&ID::from([9u8; 32]), VoteType::Preference, 1));
    assert_eq!(e.record_votes_batch(votes), 5);
    assert!(e.is_accepted(&b.id));
}

#[test]
fn certificate_round_trip() {
    let config = QuasarConfig::testnet();
    let mut q = QuasarConsensus::new(&config);
    for i in 0..5u8 {
        q.add_validator(NodeID::from([i; 32]), 1);
    }
    assert_eq!(q.validator_count(), 5);
    assert!(q.has_quorum());
    let b = ID::from([1u8; 32]);
    let votes: Vec<Vote> = vec![
        vote(&b, VoteType::Preference, 0),
        vote(&b, VoteType::Preference, 1),
        vote(&b, VoteType::Preference, 1),
        vote(&b, VoteType::Preference, 7),
        vote(&b, VoteType::Preference, 2).with_signature(vec![1, 2, 3]),
    ];
    let cert = q.create_certificate(b, 4, &votes).unwrap();
    assert_eq!(cert.signers.len(), 3);
    assert_eq!(cert.quantum_sigs[2], vec![1, 2, 3]);
    assert_eq!(cert.aggregated_sig, vec![0u8; 48]);
    assert_eq!(cert.height, 4);
    assert!(q.verify_certificate(&cert));
    assert!(q.is_finalized(&b));
    assert_eq!(q.get_certificate(&b).unwrap().signers, cert.signers);
    q.remove_validator(&NodeID::from([0u8; 32]));
    assert!(!q.verify_certificate(&cert));
}

#[test]
fn certificate_without_quorum() {
    let config = QuasarConfig::testnet();
    let mut q = QuasarConsensus::new(&config);
    q.add_validator(NodeID::from([0u8; 32]), 1);
    let b = ID::from([1u8; 32]);
    let votes: Vec<Vote> = (0..5u8).map(|i| vote(&b, VoteType::Preference, i)).collect();
    assert_eq!(q.create_certificate(b, 1, &votes).unwrap_err(), ConsensusError::NoQuorum);
    assert_eq!(q.create_certificate(b, 1, &votes[..2]).unwrap_err(), ConsensusError::NoQuorum);
    assert!(!q.is_finalized(&b));
}

#[test]
fn alpha_counts() {
    assert_eq!(QuasarConfig::testnet().alpha_count(), 3);
    assert_eq!(QuasarConfig::default().alpha_count(), 14);
    assert_eq!(QuasarConfig::mainnet().alpha_count(), 15);
    let mut c = QuasarConfig::testnet();
    c.k = 3;
    c.alpha = 670_000_000;
    assert_eq!(c.alpha_count(), 3);
}

#[test]
fn luminance_bounds_and_values() {
    let config = QuasarConfig::testnet();
    let mut l = Luminance::new(&config);
    let n = NodeID::from([3u8; 32]);
    assert_eq!(l.lux(&n), 100_000);
    l.illuminate(&n, true);
    assert_eq!(l.lux(&n), 105_000);
    for _ in 0..200 {
        l.illuminate(&n, true);
        assert!(l.lux(&n) <= 500_000);
    }
    assert_eq!(l.lux(&n), 500_000);
    for _ in 0..400 {
        l.illuminate(&n, false);
        assert!(l.lux(&n) >= 20_000);
    }
    assert_eq!(l.lux(&n), 20_000);
    assert_eq!(l.node_count(), 1);
    assert_eq!(l.total_luminance(), 20_000);
    assert_eq!(Luminance::default().brightness(&n), RATIO_ONE);
}

#[test]
fn photon_sample_order() {
    let config = QuasarConfig::testnet();
    let peers: Vec<NodeID> = (1..=3u8).map(|i| NodeID::from([i; 32])).collect();
    let mut s = PhotonSampler::new(peers.clone(), &config);
    assert_eq!(s.sample(3), vec![peers[2], peers[1], peers[0]]);
    assert_eq!(s.sample(10).len(), 3);
    assert_eq!(s.sample(1), vec![peers[2]]);
    for _ in 0..30 {
        s.update_luminance(&peers[0], true);
    }
    assert_eq!(s.sample(1), vec![peers[0]]);
    s.add_peer(peers[0]);
    assert_eq!(s.sample(10).len(), 3);
    s.remove_peer(&peers[0]);
    assert_eq!(s.sample(10), vec![peers[2], peers[1]]);
    let empty = PhotonSampler::new(vec![], &config);
    assert!(empty.sample(3).is_empty());
}

#[test]
fn photon_zero_weights_fall_back() {
    let mut config = QuasarConfig::testnet();
    config.base_luminance = 0;
    let peers: Vec<NodeID> = (1..=3u8).map(|i| NodeID::from([i; 32])).collect();
    let s = PhotonSampler::new(peers.clone(), &config);
    assert_eq!(s.sample(2), vec![peers[0], peers[1]]);
}

#[test]
fn focus_paths() {
    let mut f = Focus::new(2, 600_000_000);
    let id = ID::from([4u8; 32]);
    assert!(!f.update(id, 1, 0));
    assert!(f.state(&id).is_none());
    assert!(!f.update(id, 2, 10));
    assert_eq!(f.confidence(&id), 1);
    assert!(!f.update(id, 5, 10));
    assert_eq!(f.confidence(&id), 0);
    assert!(!f.update(id, 3, 10));
    assert!(f.update(id, 4, 10));
    assert_eq!(f.decision(&id), Decision::Reject);
    assert!(!f.update(id, 10, 10));
    assert_eq!(f.decision(&id), Decision::Reject);
    let st = f.state(&id).unwrap();
    assert_eq!((st.last_yes, st.last_total), (4, 10));
    f.reset(&id);
    assert!(!f.is_decided(&id));
}

#[test]
fn windowed_focus_expiry() {
    let mut f = WindowedFocus::new(3, 600_000_000, 100);
    let id = ID::from([6u8; 32]);
    assert!(!f.update_at(id, 7, 10, 0));
    assert!(!f.update_at(id, 7, 10, 50));
    assert!(!f.update_at(id, 7, 10, 500));
    assert!(!f.update_at(id, 7, 10, 550));
    assert!(f.update_at(id, 7, 10, 600));
    assert!(f.is_decided(&id));
    assert_eq!(f.decision(&id), Decision::Accept);
    let mut g = WindowedFocus::new(1, 600_000_000, 1_000_000);
    assert!(g.update(id, 9, 10));
}

#[test]
fn event_horizon_chains() {
    let config = QuasarConfig::testnet();
    let mut h = EventHorizon::new(&config);
    h.accept_block("x", ID::from([1u8; 32]));
    assert_eq!(h.height(), 0);
    h.register_chain("x".to_string());
    h.register_chain("x".to_string());
    h.accept_block("x", ID::from([1u8; 32]));
    h.accept_block("x", ID::from([2u8; 32]));
    assert_eq!(h.height(), 2);
    h.quasar_mut().add_validator(NodeID::from([1u8; 32]), 3);
    assert_eq!(h.quasar().validator_count(), 1);
}

#[test]
fn identifiers() {
    let short = ID::from_slice(&[1, 2, 3]);
    let mut expected = [0u8; 32];
    expected[..3].copy_from_slice(&[1, 2, 3]);
    assert_eq!(short, ID::new(expected));
    let long: Vec<u8> = (0..40u8).collect();
    assert_eq!(ID::from_slice(&long).to_vec(), (0..32u8).collect::<Vec<u8>>());
    assert!(ID::zero().is_zero());
    assert!(!short.is_zero());
    assert_eq!(short.as_bytes()[2], 3);
    let mut bytes = [0u8; 32];
    bytes[0] = 0x00;
    bytes[1] = 0x01;
    bytes[2] = 0xab;
    bytes[3] = 0xff;
    let hex = ID::new(bytes).to_hex();
    assert_eq!(hex.len(), 64);
    assert!(hex.starts_with("0001abff00"));
}

#[test]
fn block_ids_from_seed() {
    let id = block_id_from_seed(1);
    assert_eq!(
        id.to_vec(),
        vec![
            65, 32, 130, 64, 0, 0, 0, 0, 65, 20, 1, 12, 6, 65, 0, 16, 41, 38, 134, 110, 47, 132, 30,
            155, 37, 128, 93, 85, 3, 245, 84, 245
        ]
    );
    assert_eq!(generate_block_id().to_vec().len(), 32);
}

#[test]
fn error_messages() {
    assert_eq!(ConsensusError::BlockNotFound.message(), "Block not found");
    assert_eq!(ConsensusError::NoQuorum.message(), "No quorum reached");
    assert_eq!(ConsensusError::CryptoError("bad key".to_string()).message(), "Crypto error: bad key");
    assert_eq!(ConsensusError::NetworkError("down".to_string()).message(), "Network error: down");
    assert_eq!(ConsensusError::Other("plain".to_string()).message(), "plain");
}

#[test]
fn helpers() {
    let e = quick_start().unwrap();
    assert!(e.is_accepted(&ID::zero()));
    assert_eq!(e.config().k, 20);
    let b = new_block(ID::from([2u8; 32]), ID::zero(), 7, vec![1]);
    assert_eq!(b.height, 7);
    let v = new_vote(b.id, VoteType::Commit, NodeID::from([1u8; 32]));
    assert!(v.prefer());
    assert!(!new_vote(b.id, VoteType::Cancel, NodeID::from([1u8; 32])).prefer());
    assert_eq!(version(), "1.0.0");
    assert!(Block::genesis().id.is_zero());
}

#[test]
fn mainnet_engine_uses_fpc_phase() {
    let mut e = QuasarEngine::mainnet();
    e.start().unwrap();
    let b = block_b();
    e.add(b.clone()).unwrap();
    for i in 0..21u8 {
        e.record_vote(vote(&b.id, VoteType::Preference, i)).unwrap();
    }
    assert_eq!(e.phase(), 21);
    assert_eq!(e.get_status(&b.id), Status::Processing);
}

#[test]
fn identifier_from_vec() {
    let id = ID::from(vec![9u8, 8, 7]);
    assert_eq!(id, ID::from_slice(&[9, 8, 7]));
    assert_eq!(id.to_vec()[..4], [9, 8, 7, 0]);
}

#[test]
fn votes_on_genesis_are_ignored() {
    let mut c = QuasarConfig::testnet();
    c.k = 1;
    c.beta = 1;
    let mut e = started(c);
    for i in 0..9u8 {
        assert_eq!(e.record_vote(vote(&ID::zero(), VoteType::Cancel, i)), Ok(()));
    }
    assert_eq!(e.get_status(&ID::zero()), Status::Accepted);
    assert!(e.is_accepted(&ID::zero()));
}

#[test]
fn re_adding_a_decided_block_keeps_its_status() {
    let mut e = started(fast_config());
    assert_eq!(e.add(Block::genesis()), Ok(()));
    assert_eq!(e.get_status(&ID::zero()), Status::Accepted);
    let b = block_b();
    e.add(b.clone()).unwrap();
    for i in 0..5u8 {
        e.record_vote(vote(&b.id, VoteType::Cancel, i)).unwrap();
    }
    assert_eq!(e.get_status(&b.id), Status::Rejected);
    assert_eq!(e.add(b.clone()), Ok(()));
    assert_eq!(e.get_status(&b.id), Status::Rejected);
    assert_eq!(e.height(), 0);
}

#[test]
fn validator_count_tracks_changes() {
    let config = QuasarConfig::testnet();
    let mut q = QuasarConsensus::new(&config);
    q.add_validator(NodeID::from([1u8; 32]), 1);
    q.add_validator(NodeID::from([1u8; 32]), 2);
    q.add_validator(NodeID::from([2u8; 32]), 1);
    assert_eq!(q.validator_count(), 2);
    q.remove_validator(&NodeID::from([1u8; 32]));
    q.remove_validator(&NodeID::from([9u8; 32]));
    assert_eq!(q.validator_count(), 1);
}
