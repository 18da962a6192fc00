use bridge_relayer::bridge_tx::{BridgeTxInfo, BridgeTxRecord, BridgeTxRow};
use bridge_relayer::message::MessageType;

fn sample_info() -> BridgeTxInfo {
    BridgeTxInfo::new([1u8; 32], [2u8; 32], 0x0102_0304_0506_0708, MessageType::Native)
}

#[test]
fn message_type_encodes_variant_index() {
    assert_eq!(MessageType::Native.to_bytes(), vec![0, 0, 0, 0]);
    assert_eq!(MessageType::Token.to_bytes(), vec![1, 0, 0, 0]);
    assert_eq!(MessageType::NFT.to_bytes(), vec![2, 0, 0, 0]);
}

#[test]
fn message_type_decodes_its_encoding() {
    assert_eq!(MessageType::from_bytes(&[0, 0, 0, 0]), MessageType::Native);
    assert_eq!(MessageType::from_bytes(&[1, 0, 0, 0]), MessageType::Token);
    assert_eq!(MessageType::from_bytes(&[2, 0, 0, 0, 9, 9]), MessageType::NFT);
}

#[test]
fn leaf_preimage_layout() {
    let info = sample_info();
    assert_eq!(info.bridge_tx_index, 0);
    let bytes = info.to_bytes();
    assert_eq!(bytes.len(), 84);
    assert_eq!(&bytes[0..32], &[1u8; 32]);
    assert_eq!(&bytes[32..64], &[2u8; 32]);
    assert_eq!(&bytes[64..72], &[8, 7, 6, 5, 4, 3, 2, 1]);
    assert_eq!(&bytes[72..80], &[0u8; 8]);
    assert_eq!(&bytes[80..84], &[0u8; 4]);
}

#[test]
fn leaf_preimage_carries_index_and_type() {
    let mut info = BridgeTxInfo::new([0u8; 32], [0u8; 32], 5, MessageType::Token);
    info.bridge_tx_index = 258;
    let bytes = info.to_bytes();
    assert_eq!(&bytes[64..72], &[5, 0, 0, 0, 0, 0, 0, 0]);
    assert_eq!(&bytes[72..80], &[2, 1, 0, 0, 0, 0, 0, 0]);
    assert_eq!(&bytes[80..84], &[1, 0, 0, 0]);
}

#[test]
fn leaf_hash_is_deterministic() {
    let a = sample_info();
    let b = sample_info();
    let h1 = a.double_hash();
    let h2 = a.double_hash();
    let h3 = b.double_hash();
    assert_eq!(h1.len(), 32);
    assert_eq!(h1, h2);
    assert_eq!(h1, h3);
    assert_eq!(a.double_hash_array().to_vec(), h1);
}

#[test]
fn leaf_hash_is_double_sha256_of_preimage() {
    let info = sample_info();
    let expected = dd_merkle_tree::HashingAlgorithm::Sha256d.double_hash(&info.to_bytes(), 32);
    assert_eq!(info.double_hash(), expected);
    assert_ne!(info.double_hash(), info.to_bytes());
}

#[test]
fn leaf_hash_depends_on_every_field() {
    let base = sample_info().double_hash();
    let mut other = sample_info();
    other.amount += 1;
    assert_ne!(other.double_hash(), base);
    let mut other = sample_info();
    other.bridge_tx_index = 1;
    assert_ne!(other.double_hash(), base);
    let mut other = sample_info();
    other.message_type = MessageType::NFT;
    assert_ne!(other.double_hash(), base);
    let mut other = sample_info();
    other.to = [3u8; 32];
    assert_ne!(other.double_hash(), base);
}

#[test]
fn record_from_row_resets_root_program_slot() {
    let row = BridgeTxRow {
        id: 7,
        slot: 11,
        signature: "sig".to_string(),
        tx_info_hash: vec![1, 2, 3],
        proof: "ab".to_string(),
        is_generated_proof: true,
        current_mt_root: vec![9; 32],
        root_program_slot: 44,
        updated_on: 1_700_000_000,
    };
    let rec = BridgeTxRecord::from(row);
    assert_eq!(rec.slot, 11);
    assert_eq!(rec.signature, "sig");
    assert_eq!(rec.tx_info_hash, vec![1, 2, 3]);
    assert_eq!(rec.proof, "ab");
    assert!(rec.is_generated_proof);
    assert_eq!(rec.current_mt_root, vec![9; 32]);
    assert_eq!(rec.root_program_slot, 0);
}
