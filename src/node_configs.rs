use vstd::prelude::*;

verus! {

/// Everything a relayer process is configured with.
#[derive(Debug, Clone)]
pub struct NodeConfiguration {
    pub chain: ChainConfiguration,
    pub store: StoreConfiguration,
    pub contract: ContractConfiguration,
}

/// The accounts that mark a bridge transfer, as base58 public keys.
#[derive(Debug, Clone)]
pub struct ContractConfiguration {
    pub l2_message_program_id: String,
    pub l2_message_fund_account_pubkey: String,
    pub system_program_id: String,
}

/// Where the remote chain is reached, and the accounts read there.
#[derive(Debug, Clone)]
pub struct ChainConfiguration {
    pub url: String,
    pub fraud_proof_native_program_id: String,
    /// Keypair, as base58 text.
    pub execute_keypair: String,
    pub l1_root_mgr_program_id: String,
    pub l1_slots_account_pubkey: String,
}

/// Connection settings of the relational ledger store.
#[derive(Debug, Clone)]
pub struct StoreConfiguration {
    pub host: String,
    pub port: u16,
    pub username: String,
    pub password: String,
    pub schema: String,
}

} // verus!
