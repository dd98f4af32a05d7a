use lux_consensus::focus::Focus;
use lux_consensus::photon::Luminance;
use lux_consensus::wave::Wave;
use lux_consensus::{
    Block, Decision, FpcSelector, NodeID, QuasarConfig, QuasarEngine, Status, Vote, VoteType, ID,
    RATIO_ONE,
};

fn ratio(x: u64) -> f64 {
    x as f64 / RATIO_ONE as f64
}

#[test]
fn lib_test_fpc_selector() {
    let fpc = FpcSelector::default();

    let theta1 = fpc.theta(100);
    let theta2 = fpc.theta(100);
    assert_eq!(theta1, theta2);

    let theta3 = fpc.theta(101);
    assert_ne!(theta1, theta3);

    for phase in 0..1000 {
        let theta = ratio(fpc.theta(phase));
        assert!(theta >= 0.5 && theta <= 0.8, "theta {} out of range", theta);
    }
}

#[test]
fn test_fpc_threshold() {
    let fpc = FpcSelector::new(500_000_000, 800_000_000, *b"test-seed-0000000000000000000000");
    let k = 20;

    let threshold = fpc.select_threshold(0, k);
    assert!(threshold >= 10 && threshold <= 16);
}

#[test]
fn test_luminance() {
    let config = QuasarConfig::testnet();
    let mut luminance = Luminance::new(&config);

    let node = NodeID::from([1u8; 32]);

    assert_eq!(ratio(luminance.brightness(&node)), 1.0);

    luminance.illuminate(&node, true);
    assert!(ratio(luminance.brightness(&node)) > 1.0);

    let bright_before = luminance.brightness(&node);
    luminance.illuminate(&node, false);
    assert!(luminance.brightness(&node) < bright_before);
}

#[test]
fn test_focus_confidence() {
    let mut focus: Focus = Focus::new(5, 600_000_000);
    let block_id = ID::from([1u8; 32]);

    assert!(!focus.is_decided(&block_id));

    for _ in 0..5 {
        focus.update(block_id.clone(), 7, 10);
    }

    assert!(focus.is_decided(&block_id));
    assert_eq!(focus.decision(&block_id), Decision::Accept);
}

#[test]
fn test_wave_voting() {
    let config = QuasarConfig::testnet();
    let mut wave = Wave::new(config);

    let block_id = ID::from([1u8; 32]);

    for i in 0..5 {
        let vote = Vote::new(block_id.clone(), VoteType::Preference, NodeID::from([i; 32]));
        wave.record_vote(vote);
    }

    let state = wave.state(&block_id).unwrap();
    assert_eq!(state.yes_count, 5);
}

#[test]
fn test_quasar_engine() {
    let config = QuasarConfig::testnet();
    let mut engine = QuasarEngine::new(config);

    engine.start().unwrap();

    for i in 0..5 {
        engine.add_validator(NodeID::from([i; 32]), 1);
    }

    let block = Block::new(ID::from([1u8; 32]), ID::zero(), 1, b"test".to_vec());
    engine.add(block.clone()).unwrap();

    for i in 0..5 {
        let vote = Vote::new(block.id.clone(), VoteType::Preference, NodeID::from([i; 32]));
        engine.record_vote(vote).unwrap();
    }

    let status = engine.get_status(&block.id);
    assert!(status == Status::Processing || status == Status::Accepted);

    engine.stop().unwrap();
}

#[test]
fn test_full_consensus_flow() {
    let config = QuasarConfig::testnet();
    let mut engine = QuasarEngine::new(config.clone());
    engine.start().unwrap();

    for i in 0..10 {
        engine.add_validator(NodeID::from([i; 32]), 1);
    }

    let blocks: Vec<Block> = (1..=3)
        .map(|height| {
            let mut id = [0u8; 32];
            id[0] = height as u8;
            let mut parent_id = [0u8; 32];
            if height > 1 {
                parent_id[0] = (height - 1) as u8;
            }
            Block::new(ID::from(id), ID::from(parent_id), height, vec![])
        })
        .collect();

    for block in &blocks {
        engine.add(block.clone()).unwrap();
    }

    for block in &blocks {
        for i in 0..5 {
            let vote = Vote::new(block.id.clone(), VoteType::Preference, NodeID::from([i; 32]));
            engine.record_vote(vote).unwrap();
        }
    }

    for block in &blocks {
        let status = engine.get_status(&block.id);
        assert!(
            status == Status::Accepted || status == Status::Processing,
            "Block {} has unexpected status {:?}",
            block.height,
            status
        );
    }

    engine.stop().unwrap();
}

#[test]
fn lib_test_configs() {
    let default = QuasarConfig::default();
    assert_eq!(ratio(default.alpha), 0.69);
    assert_eq!(default.k, 20);
    assert_eq!(default.beta, 20);
    assert!(default.quantum_resistant);

    let testnet = QuasarConfig::testnet();
    assert_eq!(ratio(testnet.alpha), 0.6);
    assert_eq!(testnet.k, 5);
    assert!(!testnet.quantum_resistant);

    let mainnet = QuasarConfig::mainnet();
    assert_eq!(ratio(mainnet.alpha), 0.69);
    assert_eq!(mainnet.k, 21);
    assert!(mainnet.quantum_resistant);
}
