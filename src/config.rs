//! Engine configuration and its three preset profiles.

use vstd::prelude::*;
use crate::types::{SecurityLevel, RATIO_ONE};

verus! {

/// `⌈ratio · k⌉`, with `ratio` in parts per [`RATIO_ONE`].
pub open spec fn ceil_ratio(ratio: u64, k: usize) -> int {
    (ratio as int * k as int + RATIO_ONE as int - 1) / (RATIO_ONE as int)
}

/// [`ceil_ratio`] as a `usize`, saturating at `usize::MAX`.
pub open spec fn ratio_count(ratio: u64, k: usize) -> usize {
    if ceil_ratio(ratio, k) > usize::MAX as int {
        usize::MAX
    } else {
        ceil_ratio(ratio, k) as usize
    }
}

/// Computes [`ratio_count`].
pub fn ceil_ratio_count(ratio: u64, k: usize) -> (r: usize)
    ensures
        r == ratio_count(ratio, k),
{
    assert(ratio as int * k as int + RATIO_ONE as int - 1 <= u128::MAX as int) by (nonlinear_arith)
        requires
            0 <= ratio <= 0xffff_ffff_ffff_ffff,
            0 <= k <= 0xffff_ffff_ffff_ffff,
    ;
    let prod: u128 = (ratio as u128) * (k as u128);
    let c: u128 = (prod + (RATIO_ONE as u128 - 1)) / (RATIO_ONE as u128);
    if c > usize::MAX as u128 {
        usize::MAX
    } else {
        c as usize
    }
}

/// The balanced profile, every field fixed.
pub open spec fn is_default_profile(c: QuasarConfig) -> bool {
    &&& c.k == 20
    &&& c.alpha == 690_000_000
    &&& c.beta == 20
    &&& c.round_timeout_ms == 100
    &&& c.enable_fpc == true
    &&& c.theta_min == 500_000_000
    &&& c.theta_max == 800_000_000
    &&& c.fpc_seed@ == seq![
            108u8, 117, 120, 45, 99, 111, 110, 115, 101, 110, 115, 117, 115, 45, 102, 112,
            99, 45, 100, 101, 102, 97, 117, 108, 116, 45, 115, 101, 101, 100, 33, 33,
        ]
    &&& c.base_luminance == 100_000
    &&& c.max_luminance == 1_000_000
    &&& c.min_luminance == 10_000
    &&& c.success_multiplier == 1_100_000_000
    &&& c.failure_multiplier == 900_000_000
    &&& c.network_timeout_ms == 5_000
    &&& c.max_message_size == 2 * 1024 * 1024
    &&& c.max_outstanding == 10
    &&& c.security_level == SecurityLevel::Medium
    &&& c.quantum_resistant == true
    &&& c.gpu_acceleration == true
}

/// The fast, relaxed testnet profile, every field fixed.
pub open spec fn is_testnet_profile(c: QuasarConfig) -> bool {
    &&& c.k == 5
    &&& c.alpha == 600_000_000
    &&& c.beta == 5
    &&& c.round_timeout_ms == 50
    &&& c.enable_fpc == false
    &&& c.theta_min == 500_000_000
    &&& c.theta_max == 700_000_000
    &&& c.fpc_seed@ == seq![
            108u8, 117, 120, 45, 116, 101, 115, 116, 110, 101, 116, 45, 102, 112, 99, 45,
            115, 101, 101, 100, 45, 48, 48, 48, 48, 48, 48, 48, 48, 48, 48, 48,
        ]
    &&& c.base_luminance == 100_000
    &&& c.max_luminance == 500_000
    &&& c.min_luminance == 20_000
    &&& c.success_multiplier == 1_050_000_000
    &&& c.failure_multiplier == 950_000_000
    &&& c.network_timeout_ms == 10_000
    &&& c.max_message_size == 1024 * 1024
    &&& c.max_outstanding == 5
    &&& c.security_level == SecurityLevel::Low
    &&& c.quantum_resistant == false
    &&& c.gpu_acceleration == false
}

/// The production mainnet profile, every field fixed.
pub open spec fn is_mainnet_profile(c: QuasarConfig) -> bool {
    &&& c.k == 21
    &&& c.alpha == 690_000_000
    &&& c.beta == 20
    &&& c.round_timeout_ms == 100
    &&& c.enable_fpc == true
    &&& c.theta_min == 500_000_000
    &&& c.theta_max == 800_000_000
    &&& c.fpc_seed@ == seq![
            108u8, 117, 120, 45, 109, 97, 105, 110, 110, 101, 116, 45, 102, 112, 99, 45,
            115, 101, 99, 117, 114, 101, 45, 115, 101, 101, 100, 45, 50, 48, 50, 53,
        ]
    &&& c.base_luminance == 100_000
    &&& c.max_luminance == 1_000_000
    &&& c.min_luminance == 10_000
    &&& c.success_multiplier == 1_100_000_000
    &&& c.failure_multiplier == 900_000_000
    &&& c.network_timeout_ms == 5_000
    &&& c.max_message_size == 2 * 1024 * 1024
    &&& c.max_outstanding == 10
    &&& c.security_level == SecurityLevel::High
    &&& c.quantum_resistant == true
    &&& c.gpu_acceleration == true
}

/// Configuration of the consensus engine.
///
/// `alpha`, `theta_min`, `theta_max` and the two multipliers are ratios in
/// parts per [`RATIO_ONE`]; luminances are in millilux; timeouts in milliseconds.
/// Timeouts, network limits and security options are hints for collaborators.
#[derive(Debug, Clone, Copy)]
pub struct QuasarConfig {
    pub k: usize,
    pub alpha: u64,
    pub beta: u32,
    pub round_timeout_ms: u64,
    pub enable_fpc: bool,
    pub theta_min: u64,
    pub theta_max: u64,
    pub fpc_seed: [u8; 32],
    pub base_luminance: u64,
    pub max_luminance: u64,
    pub min_luminance: u64,
    pub success_multiplier: u64,
    pub failure_multiplier: u64,
    pub network_timeout_ms: u64,
    pub max_message_size: usize,
    pub max_outstanding: usize,
    pub security_level: SecurityLevel,
    pub quantum_resistant: bool,
    pub gpu_acceleration: bool,
}

/// The configuration under its short name.
pub type Config = QuasarConfig;

impl QuasarConfig {
    /// Balanced profile: `k = 20`, `α = 0.69`, `β = 20`, FPC on.
    pub fn default() -> (r: QuasarConfig)
        ensures
            is_default_profile(r),
    {
        let r = QuasarConfig {
            k: 20,
            alpha: 690_000_000,
            beta: 20,
            round_timeout_ms: 100,
            enable_fpc: true,
            theta_min: 500_000_000,
            theta_max: 800_000_000,
            fpc_seed: [
                108, 117, 120, 45, 99, 111, 110, 115, 101, 110, 115, 117, 115, 45, 102, 112,
                99, 45, 100, 101, 102, 97, 117, 108, 116, 45, 115, 101, 101, 100, 33, 33,
            ],
            base_luminance: 100_000,
            max_luminance: 1_000_000,
            min_luminance: 10_000,
            success_multiplier: 1_100_000_000,
            failure_multiplier: 900_000_000,
            network_timeout_ms: 5_000,
            max_message_size: 2 * 1024 * 1024,
            max_outstanding: 10,
            security_level: SecurityLevel::Medium,
            quantum_resistant: true,
            gpu_acceleration: true,
        };
        assert(r.fpc_seed@ =~= seq![
            108u8, 117, 120, 45, 99, 111, 110, 115, 101, 110, 115, 117, 115, 45, 102, 112,
            99, 45, 100, 101, 102, 97, 117, 108, 116, 45, 115, 101, 101, 100, 33, 33,
        ]);
        r
    }

    /// Fast, relaxed profile: `k = 5`, `α = 0.6`, `β = 5`, FPC off.
    pub fn testnet() -> (r: QuasarConfig)
        ensures
            is_testnet_profile(r),
    {
        let r = QuasarConfig {
            k: 5,
            alpha: 600_000_000,
            beta: 5,
            round_timeout_ms: 50,
            enable_fpc: false,
            theta_min: 500_000_000,
            theta_max: 700_000_000,
            fpc_seed: [
                108, 117, 120, 45, 116, 101, 115, 116, 110, 101, 116, 45, 102, 112, 99, 45,
                115, 101, 101, 100, 45, 48, 48, 48, 48, 48, 48, 48, 48, 48, 48, 48,
            ],
            base_luminance: 100_000,
            max_luminance: 500_000,
            min_luminance: 20_000,
            success_multiplier: 1_050_000_000,
            failure_multiplier: 950_000_000,
            network_timeout_ms: 10_000,
            max_message_size: 1024 * 1024,
            max_outstanding: 5,
            security_level: SecurityLevel::Low,
            quantum_resistant: false,
            gpu_acceleration: false,
        };
        assert(r.fpc_seed@ =~= seq![
            108u8, 117, 120, 45, 116, 101, 115, 116, 110, 101, 116, 45, 102, 112, 99, 45,
            115, 101, 101, 100, 45, 48, 48, 48, 48, 48, 48, 48, 48, 48, 48, 48,
        ]);
        r
    }

    /// Production profile: `k = 21`, `α = 0.69`, `β = 20`, FPC on, security high.
    pub fn mainnet() -> (r: QuasarConfig)
        ensures
            is_mainnet_profile(r),
    {
        let r = QuasarConfig {
            k: 21,
            alpha: 690_000_000,
            beta: 20,
            round_timeout_ms: 100,
            enable_fpc: true,
            theta_min: 500_000_000,
            theta_max: 800_000_000,
            fpc_seed: [
                108, 117, 120, 45, 109, 97, 105, 110, 110, 101, 116, 45, 102, 112, 99, 45,
                115, 101, 99, 117, 114, 101, 45, 115, 101, 101, 100, 45, 50, 48, 50, 53,
            ],
            base_luminance: 100_000,
            max_luminance: 1_000_000,
            min_luminance: 10_000,
            success_multiplier: 1_100_000_000,
            failure_multiplier: 900_000_000,
            network_timeout_ms: 5_000,
            max_message_size: 2 * 1024 * 1024,
            max_outstanding: 10,
            security_level: SecurityLevel::High,
            quantum_resistant: true,
            gpu_acceleration: true,
        };
        assert(r.fpc_seed@ =~= seq![
            108u8, 117, 120, 45, 109, 97, 105, 110, 110, 101, 116, 45, 102, 112, 99, 45,
            115, 101, 99, 117, 114, 101, 45, 115, 101, 101, 100, 45, 50, 48, 50, 53,
        ]);
        r
    }

    /// The fixed quorum count `⌈α·k⌉`.
    pub fn alpha_count(&self) -> (r: usize)
        ensures
            r == ratio_count(self.alpha, self.k),
    {
        ceil_ratio_count(self.alpha, self.k)
    }
}

impl Default for QuasarConfig {
    fn default() -> (r: QuasarConfig)
        ensures
            is_default_profile(r),
    {
        QuasarConfig::default()
    }
}

} // verus!
