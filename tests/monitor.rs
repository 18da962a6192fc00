use bridge_relayer::bridge_tx::BridgeTxRecord;
use bridge_relayer::bridge_tx_repo::BridgeTxRepo;
use bridge_relayer::error::NodeError;
use bridge_relayer::merkle::{root_from_proof, MerkleMirror};
use bridge_relayer::monitor::MonitorState;

fn rec(slot: i64) -> BridgeTxRecord {
    BridgeTxRecord {
        slot,
        signature: format!("sig{}", slot),
        tx_info_hash: dd_merkle_tree::HashingAlgorithm::Sha256d.double_hash(&[slot as u8], 32),
        proof: String::new(),
        is_generated_proof: false,
        root_program_slot: 0,
        current_mt_root: vec![],
    }
}

fn ledger(slots: &[i64]) -> BridgeTxRepo {
    let mut repo = BridgeTxRepo::new();
    repo.insert(slots.iter().map(|s| rec(*s)).collect(), 1).unwrap();
    repo
}

fn window(repo: &BridgeTxRepo, from: i64, to: i64) -> Vec<BridgeTxRecord> {
    repo.range(from, to).unwrap().into_iter().map(BridgeTxRecord::from).collect()
}

fn root_over(hashes: Vec<Vec<u8>>) -> Vec<u8> {
    let mut m = MerkleMirror::new();
    m.add_leaves(hashes);
    m.rebuild().unwrap()
}

fn proof_hashes(text: &str) -> Vec<Vec<u8>> {
    hex::decode(text).unwrap().chunks(32).map(|c| c.to_vec()).collect()
}

#[test]
fn checkpoint_with_matching_root_proves_every_row() {
    let mut repo = ledger(&[1, 2, 3, 4]);
    let rows = window(&repo, 1, 4);
    let root = root_over(rows.iter().map(|r| r.tx_info_hash.clone()).collect());
    let mut state = MonitorState::rehydrate(0, vec![]);
    let proved = state.prove_checkpoint(rows.clone(), &root).unwrap();
    assert_eq!(proved.len(), 4);
    for (i, p) in proved.iter().enumerate() {
        assert!(p.is_generated_proof);
        assert_eq!(p.current_mt_root, root);
        assert_eq!(p.slot, rows[i].slot);
        assert_eq!(p.signature, rows[i].signature);
        assert_eq!(p.proof.len(), 2 * 32 * 2);
        let hashes = proof_hashes(&p.proof);
        assert_eq!(root_from_proof(&p.tx_info_hash, i, 4, &hashes), Some(root.clone()));
    }
    for p in proved {
        repo.update(p, 2).unwrap();
    }
    state.commit_checkpoint(4);
    assert_eq!(state.last_proven_slot, 4);
    assert!(repo.range(1, 4).unwrap().iter().all(|r| r.is_generated_proof));
    assert_eq!(repo.earliest_without_proof().unwrap_err(), NodeError::NotFound);
}

#[test]
fn checkpoint_with_different_root_is_divergence() {
    let repo = ledger(&[1, 2, 3, 4]);
    let rows = window(&repo, 1, 4);
    let mut root = root_over(rows.iter().map(|r| r.tx_info_hash.clone()).collect());
    root[17] ^= 0x40;
    let mut state = MonitorState::rehydrate(0, vec![]);
    assert_eq!(state.prove_checkpoint(rows, &root).unwrap_err(), NodeError::Divergence);
    assert_eq!(state.last_proven_slot, 0);
    assert!(repo.range(1, 4).unwrap().iter().all(|r| !r.is_generated_proof && r.proof.is_empty()));
}

#[test]
fn restarted_monitor_gives_same_proofs() {
    let repo = ledger(&[1, 2, 3, 4, 5]);
    let all: Vec<Vec<u8>> = window(&repo, 1, 5).iter().map(|r| r.tx_info_hash.clone()).collect();
    let root_2 = root_over(all[..2].to_vec());
    let root_5 = root_over(all.clone());

    let mut straight = MonitorState::rehydrate(0, vec![]);
    straight.prove_checkpoint(window(&repo, 1, 2), &root_2).unwrap();
    straight.commit_checkpoint(2);
    let a = straight.prove_checkpoint(window(&repo, 3, 5), &root_5).unwrap();

    let mut resumed = MonitorState::rehydrate(2, repo.bridge_tx_hashes(0, 2).unwrap());
    let b = resumed.prove_checkpoint(window(&repo, 3, 5), &root_5).unwrap();
    let proofs_a: Vec<String> = a.iter().map(|r| r.proof.clone()).collect();
    let proofs_b: Vec<String> = b.iter().map(|r| r.proof.clone()).collect();
    assert_eq!(proofs_a, proofs_b);
    assert_eq!(resumed.mirror.leaf_count(), 5);
}

#[test]
fn empty_first_window_has_no_root() {
    let mut state = MonitorState::rehydrate(0, vec![]);
    assert_eq!(state.prove_checkpoint(vec![], &vec![0u8; 32]).unwrap_err(), NodeError::EmptyTree);
}

#[test]
fn pending_checkpoints_follow_last_proven() {
    let state = MonitorState::rehydrate(20, vec![]);
    assert_eq!(state.pending_checkpoints(&vec![5, 20, 21, 40]), vec![21, 40]);
    assert!(state.pending_checkpoints(&vec![1, 2]).is_empty());
    let fresh = MonitorState::rehydrate(-1, vec![]);
    assert_eq!(fresh.pending_checkpoints(&vec![0, 3]), vec![0, 3]);
}

#[test]
fn last_proven_slot_never_moves_back() {
    let mut state = MonitorState::rehydrate(10, vec![]);
    state.commit_checkpoint(7);
    assert_eq!(state.last_proven_slot, 10);
    state.commit_checkpoint(12);
    assert_eq!(state.last_proven_slot, 12);
}

#[test]
fn proof_text_is_hex_of_sibling_hashes() {
    let rows = vec![rec(1), rec(2)];
    let root = root_over(rows.iter().map(|r| r.tx_info_hash.clone()).collect());
    let mut state = MonitorState::rehydrate(0, vec![]);
    let proved = state.prove_checkpoint(rows.clone(), &root).unwrap();
    assert_eq!(proved[0].proof, hex::encode(&rows[1].tx_info_hash));
    assert_eq!(proved[1].proof, hex::encode(&rows[0].tx_info_hash));
    assert!(proved[0].proof.chars().all(|c| c.is_ascii_digit() || ('a'..='f').contains(&c)));
}

#[test]
fn later_window_counts_leaf_indices_on() {
    let rows = vec![rec(1), rec(2), rec(3)];
    let all: Vec<Vec<u8>> = rows.iter().map(|r| r.tx_info_hash.clone()).collect();
    let mut state = MonitorState::rehydrate(1, all[..1].to_vec());
    let root = root_over(all.clone());
    let proved = state.prove_checkpoint(rows[1..].to_vec(), &root).unwrap();
    assert_eq!(proved.len(), 2);
    let p = proof_hashes(&proved[1].proof);
    assert_eq!(root_from_proof(&all[2], 2, 3, &p), Some(root.clone()));
    assert_eq!(root_from_proof(&all[2], 1, 3, &p) == Some(root), false);
}

#[test]
fn restart_after_partial_write_back_gives_same_proofs() {
    let mut repo = ledger(&[1, 2, 3, 4]);
    let all: Vec<Vec<u8>> = window(&repo, 1, 4).iter().map(|r| r.tx_info_hash.clone()).collect();
    let root_2 = root_over(all[..2].to_vec());
    let root_4 = root_over(all.clone());

    let mut straight = MonitorState::rehydrate(0, vec![]);
    for p in straight.prove_checkpoint(window(&repo, 1, 2), &root_2).unwrap() {
        repo.update(p, 2).unwrap();
    }
    straight.commit_checkpoint(2);
    let expected = straight.prove_checkpoint(window(&repo, 3, 4), &root_4).unwrap();
    repo.update(expected[0].clone(), 3).unwrap();

    let last = repo.latest_row(true).unwrap().slot;
    assert_eq!(last, 3);
    let mut resumed = MonitorState::rehydrate(2, repo.bridge_tx_hashes(0, 2).unwrap());
    let again = resumed.prove_checkpoint(window(&repo, 3, 4), &root_4).unwrap();
    let a: Vec<String> = expected.iter().map(|r| r.proof.clone()).collect();
    let b: Vec<String> = again.iter().map(|r| r.proof.clone()).collect();
    assert_eq!(a, b);
}
