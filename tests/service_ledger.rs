use bridge_relayer::block_repo::{BlockRepo, BlockRow};
use bridge_relayer::bridge_tx::BridgeTxRecord;
use bridge_relayer::bridge_tx_repo::BridgeTxRepo;
use bridge_relayer::error::NodeError;
use bridge_relayer::execute_service::ExecuteService;
use bridge_relayer::node_configs::ContractConfiguration;

fn service() -> ExecuteService {
    ExecuteService::new(&ContractConfiguration {
        l2_message_program_id: "11111111111111111111111111111112".to_string(),
        l2_message_fund_account_pubkey: "11111111111111111111111111111113".to_string(),
        system_program_id: "11111111111111111111111111111111".to_string(),
    })
    .unwrap()
}

fn rec(slot: i64, sig: &str, proved: bool) -> BridgeTxRecord {
    BridgeTxRecord {
        slot,
        signature: sig.to_string(),
        tx_info_hash: vec![slot as u8; 32],
        proof: if proved { "aa".to_string() } else { String::new() },
        is_generated_proof: proved,
        root_program_slot: 3,
        current_mt_root: vec![],
    }
}

#[test]
fn service_counts_inserted_rows() {
    let svc = service();
    let mut repo = BridgeTxRepo::new();
    let batch = vec![rec(1, "a", false), rec(2, "b", false)];
    assert_eq!(svc.insert_bridge_txs(&mut repo, batch.clone(), 5), Ok(2));
    assert_eq!(svc.insert_bridge_txs(&mut repo, batch, 6), Ok(0));
}

#[test]
fn service_reads_ranges_as_records() {
    let svc = service();
    let mut repo = BridgeTxRepo::new();
    svc.insert_bridge_txs(&mut repo, vec![rec(3, "c", false), rec(1, "a", false), rec(2, "b", false)], 5)
        .unwrap();
    let records = svc.bridge_tx_range(&repo, 2, 3).unwrap();
    let slots: Vec<i64> = records.iter().map(|r| r.slot).collect();
    assert_eq!(slots, vec![2, 3]);
    assert!(records.iter().all(|r| r.root_program_slot == 0));
    assert_eq!(svc.brige_txs_hashes(&repo, 1, 2).unwrap(), vec![vec![1u8; 32], vec![2u8; 32]]);
}

#[test]
fn service_finds_last_proven_row() {
    let svc = service();
    let mut repo = BridgeTxRepo::new();
    assert_eq!(
        svc.get_last_has_proof_bridge_tx_from_pg_for_monitor(&repo).unwrap_err(),
        NodeError::NotFound
    );
    svc.insert_bridge_txs(&mut repo, vec![rec(1, "a", true), rec(2, "b", true), rec(3, "c", false)], 5)
        .unwrap();
    let last = svc.get_last_has_proof_bridge_tx_from_pg_for_monitor(&repo).unwrap();
    assert_eq!(last.slot, 2);
    assert_eq!(last.root_program_slot, 0);
    let row = svc.bridge_tx_update(&mut repo, rec(3, "c", true), 9).unwrap();
    assert_eq!(row.slot, 3);
    assert_eq!(svc.get_last_has_proof_bridge_tx_from_pg_for_monitor(&repo).unwrap().slot, 3);
    assert_eq!(svc.bridge_tx_update(&mut repo, rec(4, "d", true), 9).unwrap_err(), NodeError::NotFound);
}

#[test]
fn service_max_slot_defaults_to_zero() {
    let mut svc = service();
    let mut empty = BlockRepo { rows: vec![] };
    assert_eq!(svc.get_max_slot(&mut empty), Ok(0));
    let mut blocks = BlockRepo { rows: vec![BlockRow { id: 1, slot: 8 }, BlockRow { id: 2, slot: 3 }] };
    assert_eq!(svc.get_max_slot(&mut blocks), Ok(8));
}
