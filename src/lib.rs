pub mod block_repo;
pub mod bridge_tx;
pub mod bridge_tx_repo;
pub mod bytes;
pub mod chain_root_mgr_service;
pub mod encoding;
pub mod error;
pub mod execute_service;
pub mod hashing;
pub mod merkle;
pub mod message;
pub mod monitor;
pub mod node_configs;
pub mod scan;
