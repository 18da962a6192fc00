use bridge_relayer::block_repo::{BlockRepo, BlockRow};
use bridge_relayer::chain_root_mgr_service::{decode_roots_info, decode_slots_account};
use bridge_relayer::error::NodeError;
use bridge_relayer::scan::next_scan_range;

fn slots_data(slots: &[u64]) -> Vec<u8> {
    let mut d = vec![0xaa; 8];
    d.extend_from_slice(&[3u8; 32]);
    d.push(1);
    d.extend_from_slice(&(slots.len() as u32).to_le_bytes());
    for s in slots {
        d.extend_from_slice(&s.to_le_bytes());
    }
    d
}

#[test]
fn slots_account_is_decoded() {
    let acc = decode_slots_account(&slots_data(&[10, 52833, u64::MAX])).unwrap();
    assert_eq!(acc.authority, [3u8; 32]);
    assert!(acc.initialized);
    assert_eq!(acc.slots, vec![10, 52833, u64::MAX]);
    let mut trailing = slots_data(&[4]);
    trailing.extend_from_slice(&[0, 0, 0]);
    assert_eq!(decode_slots_account(&trailing).unwrap().slots, vec![4]);
}

#[test]
fn malformed_slots_account_is_rejected() {
    let mut short = slots_data(&[1, 2]);
    short.pop();
    assert!(matches!(decode_slots_account(&short), Err(NodeError::MalformedRemoteData)));
    let mut bad_flag = slots_data(&[]);
    bad_flag[40] = 2;
    assert!(matches!(decode_slots_account(&bad_flag), Err(NodeError::MalformedRemoteData)));
    assert!(matches!(decode_slots_account(&[0u8; 44]), Err(NodeError::MalformedRemoteData)));
}

#[test]
fn roots_info_is_decoded() {
    let mut d = vec![0u8; 8];
    d.extend_from_slice(&77u64.to_le_bytes());
    d.extend_from_slice(&[5u8; 32]);
    d.extend_from_slice(&[6u8; 32]);
    let info = decode_roots_info(&d).unwrap();
    assert_eq!(info.slot, 77);
    assert_eq!(info.merkle_tree_root, [5u8; 32]);
    assert_eq!(info.world_state_root, [6u8; 32]);
    d.pop();
    assert!(matches!(decode_roots_info(&d), Err(NodeError::MalformedRemoteData)));
}

#[test]
fn scan_range_runs_from_cursor_to_before_latest() {
    assert_eq!(next_scan_range(0, 10, 2), Some((2, 9)));
    assert_eq!(next_scan_range(4, 10, 2), Some((5, 9)));
    assert_eq!(next_scan_range(8, 10, 2), Some((9, 9)));
    assert_eq!(next_scan_range(9, 10, 2), None);
    assert_eq!(next_scan_range(12, 10, 2), None);
    assert_eq!(next_scan_range(0, 2, 2), None);
    assert_eq!(next_scan_range(i64::MAX, i64::MIN, 2), None);
}

#[test]
fn block_repo_shows_latest_block() {
    let mut empty = BlockRepo { rows: vec![] };
    assert_eq!(empty.show(), Err(NodeError::NotFound));
    let mut repo = BlockRepo {
        rows: vec![
            BlockRow { id: 1, slot: 4 },
            BlockRow { id: 2, slot: 9 },
            BlockRow { id: 3, slot: 9 },
            BlockRow { id: 4, slot: 2 },
        ],
    };
    assert_eq!(repo.show(), Ok(BlockRow { id: 2, slot: 9 }));
}

#[test]
fn error_messages_name_the_failure() {
    assert_eq!(
        NodeError::Divergence.message(),
        "local merkle tree is different to the tree on chain"
    );
    assert_eq!(NodeError::NotFound.message(), "not found");
}
