use bridge_relayer::bridge_tx::{BridgeTxRecord, BridgeTxRow};
use bridge_relayer::bridge_tx_repo::BridgeTxRepo;
use bridge_relayer::error::NodeError;

fn rec(slot: i64, sig: &str) -> BridgeTxRecord {
    BridgeTxRecord {
        slot,
        signature: sig.to_string(),
        tx_info_hash: vec![slot as u8; 32],
        proof: String::new(),
        is_generated_proof: false,
        root_program_slot: 0,
        current_mt_root: vec![],
    }
}

fn keys(rows: &[BridgeTxRow]) -> Vec<(i64, String)> {
    rows.iter().map(|r| (r.slot, r.signature.clone())).collect()
}

#[test]
fn inserting_a_batch_twice_is_like_once() {
    let mut repo = BridgeTxRepo::new();
    let batch = vec![rec(3, "c"), rec(1, "a"), rec(2, "b")];
    let first = repo.insert(batch.clone(), 100).unwrap();
    assert_eq!(first.len(), 3);
    let once = repo.range(i64::MIN, i64::MAX).unwrap();
    let second = repo.insert(batch, 200).unwrap();
    assert!(second.is_empty());
    let twice = repo.range(i64::MIN, i64::MAX).unwrap();
    assert_eq!(keys(&once), keys(&twice));
    assert_eq!(twice.len(), 3);
    assert!(twice.iter().all(|r| r.updated_on == 100));
}

#[test]
fn duplicates_within_a_batch_are_skipped() {
    let mut repo = BridgeTxRepo::new();
    let added = repo.insert(vec![rec(5, "x"), rec(5, "x"), rec(5, "y")], 1).unwrap();
    assert_eq!(keys(&added), vec![(5, "x".to_string()), (5, "y".to_string())]);
}

#[test]
fn range_is_inclusive_and_ordered_by_slot() {
    let mut repo = BridgeTxRepo::new();
    repo.insert(vec![rec(7, "g"), rec(2, "b"), rec(5, "e1")], 1).unwrap();
    repo.insert(vec![rec(5, "e2"), rec(1, "a"), rec(9, "i")], 2).unwrap();
    let rows = repo.range(2, 7).unwrap();
    assert_eq!(
        keys(&rows),
        vec![(2, "b".to_string()), (5, "e1".to_string()), (5, "e2".to_string()), (7, "g".to_string())]
    );
    let hashes = repo.bridge_tx_hashes(5, 5).unwrap();
    assert_eq!(hashes, vec![vec![5u8; 32], vec![5u8; 32]]);
    assert!(repo.range(10, 20).unwrap().is_empty());
}

#[test]
fn update_replaces_the_keyed_row() {
    let mut repo = BridgeTxRepo::new();
    repo.insert(vec![rec(1, "a"), rec(1, "b")], 1).unwrap();
    let mut proved = rec(1, "b");
    proved.proof = "00ff".to_string();
    proved.is_generated_proof = true;
    proved.current_mt_root = vec![4; 32];
    let row = repo.update(proved, 9).unwrap();
    assert_eq!(row.proof, "00ff");
    assert_eq!(row.updated_on, 9);
    let rows = repo.range(1, 1).unwrap();
    assert!(!rows[0].is_generated_proof);
    assert!(rows[1].is_generated_proof);
    assert_eq!(rows[1].current_mt_root, vec![4; 32]);
}

#[test]
fn update_of_missing_row_is_not_found() {
    let mut repo = BridgeTxRepo::new();
    repo.insert(vec![rec(1, "a")], 1).unwrap();
    assert_eq!(repo.update(rec(1, "z"), 2).unwrap_err(), NodeError::NotFound);
    assert_eq!(repo.update(rec(2, "a"), 2).unwrap_err(), NodeError::NotFound);
}

#[test]
fn latest_and_earliest_rows_by_proof_state() {
    let mut repo = BridgeTxRepo::new();
    assert_eq!(repo.show().unwrap_err(), NodeError::NotFound);
    assert_eq!(repo.latest_row(true).unwrap_err(), NodeError::NotFound);
    assert_eq!(repo.earliest_without_proof().unwrap_err(), NodeError::NotFound);
    repo.insert(vec![rec(1, "a"), rec(2, "b"), rec(3, "c"), rec(4, "d")], 1).unwrap();
    for (slot, sig) in [(1, "a"), (2, "b")] {
        let mut r = rec(slot, sig);
        r.is_generated_proof = true;
        repo.update(r, 2).unwrap();
    }
    assert_eq!(repo.show().unwrap().slot, 4);
    assert_eq!(repo.latest_row(true).unwrap().slot, 2);
    assert_eq!(repo.latest_row(false).unwrap().slot, 4);
    assert_eq!(repo.earliest_without_proof().unwrap().slot, 3);
}

#[test]
fn update_writes_proof_fields_only() {
    let mut repo = BridgeTxRepo::new();
    let mut stored = rec(3, "c");
    stored.root_program_slot = 17;
    repo.insert(vec![stored], 1).unwrap();
    let id = repo.show().unwrap().id;
    let mut proved = rec(3, "c");
    proved.tx_info_hash = vec![0xee; 32];
    proved.root_program_slot = 0;
    proved.proof = "abcd".to_string();
    proved.is_generated_proof = true;
    proved.current_mt_root = vec![7; 32];
    let row = repo.update(proved, 5).unwrap();
    assert_eq!(row.id, id);
    assert_eq!(row.updated_on, 5);
    assert_eq!(row.tx_info_hash, vec![3u8; 32]);
    assert_eq!(row.root_program_slot, 17);
    assert_eq!(row.proof, "abcd");
    let back = repo.show().unwrap();
    assert_eq!(back.id, id);
    assert_eq!(back.tx_info_hash, vec![3u8; 32]);
    assert_eq!(back.root_program_slot, 17);
    assert!(back.is_generated_proof);
    assert_eq!(back.current_mt_root, vec![7; 32]);
}
