//! Wallet configuration records.

use vstd::prelude::*;

verus! {

/// Chain parameters.
#[derive(Debug, Clone)]
pub struct BlockchainConfig {
    /// Compact difficulty of the first block.
    pub initial_difficulty: u32,
    /// Seconds.
    pub target_block_time: u64,
    /// Blocks.
    pub difficulty_adjustment_interval: u64,
    /// Bytes.
    pub max_block_size: usize,
    pub genesis_hash: [u8; 32],
}

impl Default for BlockchainConfig {
    /// Bitcoin-style defaults: compact difficulty `0x1d00ffff`, ten-minute
    /// blocks, adjustment every 2016 blocks, one-megabyte blocks, zero
    /// genesis hash.
    fn default() -> (r: Self)
        ensures
            r.initial_difficulty == 0x1d00ffff,
            r.target_block_time == 600,
            r.difficulty_adjustment_interval == 2016,
            r.max_block_size == 1_000_000,
            r.genesis_hash@ == Seq::new(32, |i: int| 0u8),
    {
        let r = BlockchainConfig {
            initial_difficulty: 0x1d00ffff,
            target_block_time: 600,
            difficulty_adjustment_interval: 2016,
            max_block_size: 1_000_000,
            genesis_hash: [0u8; 32],
        };
        assert(r.genesis_hash@ =~= Seq::new(32, |i: int| 0u8));
        r
    }
}

/// Peers and ports.
#[derive(Debug, Clone)]
pub struct NetworkConfig {
    pub node_addresses: Vec<String>,
    pub timeout_seconds: u64,
    pub retry_attempts: u32,
    pub p2p_port: u16,
    pub rpc_port: u16,
}

/// Local protection settings.
#[derive(Debug, Clone)]
pub struct SecurityConfig {
    pub require_pin: bool,
    pub pin_timeout_minutes: u64,
    pub enable_biometrics: bool,
    pub auto_lock_minutes: u64,
}

/// Everything the wallet is configured with.
#[derive(Debug, Clone)]
pub struct WalletConfig {
    pub network: NetworkConfig,
    pub security: SecurityConfig,
    pub blockchain: BlockchainConfig,
}

} // verus!
