use bridge_relayer::error::NodeError;
use bridge_relayer::merkle::{root_from_proof, verify_root, MerkleMirror};
use dd_merkle_tree::HashingAlgorithm;

fn h(m: &[u8]) -> Vec<u8> {
    HashingAlgorithm::Sha256d.double_hash(m, 32)
}

fn pair(a: &[u8], b: &[u8]) -> Vec<u8> {
    let mut m = a.to_vec();
    m.extend_from_slice(b);
    h(&m)
}

fn leaves(n: u8) -> Vec<Vec<u8>> {
    (0..n).map(|i| h(&[i])).collect()
}

fn unhex(s: &str) -> Vec<u8> {
    hex::decode(s).unwrap()
}

#[test]
fn empty_tree_has_no_root() {
    let mut m = MerkleMirror::new();
    assert_eq!(m.rebuild(), Err(NodeError::EmptyTree));
    assert_eq!(m.proof_for_index(0), Err(NodeError::EmptyTree));
}

#[test]
fn single_leaf_is_its_own_root() {
    let mut m = MerkleMirror::new();
    let leaf = unhex("c997a5e56e104102fa209c6a852dd90660a20b2d9c352423edce25857fcd3704");
    m.add_leaves(vec![leaf.clone()]);
    assert_eq!(m.rebuild().unwrap(), leaf);
    assert_eq!(m.proof_for_index(0).unwrap(), Vec::<Vec<u8>>::new());
}

#[test]
fn four_leaves_match_known_root() {
    let mut m = MerkleMirror::new();
    m.add_leaves(vec![
        unhex("876dd0a3ef4a2816ffd1c12ab649825a958b0ff3bb3d6f3e1250f13ddbf0148c"),
        unhex("c40297f730dd7b5a99567eb8d27b78758f607507c52292d02d4031895b52f2ff"),
        unhex("c46e239ab7d28e2c019b6d66ad8fae98a56ef1f21aeecb94d1b1718186f05963"),
        unhex("1d0cb83721529a062d9675b98d6e5c587e4a770fc84ed00abc5a5de04568a6e9"),
    ]);
    assert_eq!(
        m.rebuild().unwrap(),
        unhex("6657a9252aacd5c0b2940996ecff952228c3067cc38d4885efb5a4ac4247e9f3")
    );
}

#[test]
fn odd_node_is_carried_up_unpaired() {
    let l = leaves(3);
    let mut m = MerkleMirror::new();
    m.add_leaves(l.clone());
    let ab = pair(&l[0], &l[1]);
    let root = pair(&ab, &l[2]);
    assert_eq!(m.rebuild().unwrap(), root);
    assert_eq!(m.proof_for_index(0).unwrap(), vec![l[1].clone(), l[2].clone()]);
    assert_eq!(m.proof_for_index(1).unwrap(), vec![l[0].clone(), l[2].clone()]);
    assert_eq!(m.proof_for_index(2).unwrap(), vec![ab]);
}

#[test]
fn five_leaves_root() {
    let l = leaves(5);
    let mut m = MerkleMirror::new();
    m.add_leaves(l.clone());
    let ab = pair(&l[0], &l[1]);
    let cd = pair(&l[2], &l[3]);
    let abcd = pair(&ab, &cd);
    assert_eq!(m.rebuild().unwrap(), pair(&abcd, &l[4]));
    assert_eq!(m.proof_for_index(4).unwrap(), vec![abcd]);
}

#[test]
fn proofs_recombine_to_root() {
    for n in 1..=12u8 {
        let l = leaves(n);
        let mut m = MerkleMirror::new();
        m.add_leaves(l.clone());
        let root = m.rebuild().unwrap();
        for i in 0..n as usize {
            let p = m.proof_for_index(i).unwrap();
            assert_eq!(root_from_proof(&l[i], i, n as usize, &p), Some(root.clone()));
        }
    }
}

#[test]
fn proof_of_wrong_shape_is_rejected() {
    let l = leaves(4);
    let mut m = MerkleMirror::new();
    m.add_leaves(l.clone());
    let root = m.rebuild().unwrap();
    let mut p = m.proof_for_index(1).unwrap();
    let mut longer = p.clone();
    longer.push(l[0].clone());
    assert_eq!(root_from_proof(&l[1], 1, 4, &longer), None);
    p.pop();
    assert_eq!(root_from_proof(&l[1], 1, 4, &p), None);
    let wrong_leaf = root_from_proof(&l[2], 1, 4, &m.proof_for_index(1).unwrap());
    assert_ne!(wrong_leaf, Some(root));
}

#[test]
fn rebuild_is_deterministic() {
    let l = leaves(7);
    let mut a = MerkleMirror::new();
    a.add_leaves(l.clone());
    let mut b = MerkleMirror::new();
    b.add_leaves(l[..3].to_vec());
    b.add_leaves(l[3..].to_vec());
    let ra = a.rebuild().unwrap();
    assert_eq!(a.rebuild().unwrap(), ra);
    assert_eq!(b.rebuild().unwrap(), ra);
    for i in 0..7 {
        assert_eq!(a.proof_for_index(i).unwrap(), b.proof_for_index(i).unwrap());
    }
}

#[test]
fn proofs_need_a_current_rebuild() {
    let l = leaves(3);
    let mut m = MerkleMirror::new();
    m.add_leaves(l[..2].to_vec());
    m.rebuild().unwrap();
    m.add_leaves(l[2..].to_vec());
    assert_eq!(m.leaf_count(), 3);
    assert_eq!(m.proof_for_index(0), Err(NodeError::TreeNotRebuilt));
    m.rebuild().unwrap();
    assert_eq!(m.proof_for_index(3), Err(NodeError::LeafOutOfRange));
    assert!(m.proof_for_index(2).is_ok());
}

#[test]
fn verify_root_accepts_equal_and_rejects_any_flipped_bit() {
    let l = leaves(6);
    let mut m = MerkleMirror::new();
    m.add_leaves(l);
    let root = m.rebuild().unwrap();
    assert_eq!(verify_root(&mut m, &root), Ok(root.clone()));
    for byte in 0..32 {
        for bit in 0..8 {
            let mut other = root.clone();
            other[byte] ^= 1 << bit;
            assert_eq!(verify_root(&mut m, &other), Err(NodeError::Divergence));
        }
    }
    let mut empty = MerkleMirror::new();
    assert_eq!(verify_root(&mut empty, &root), Err(NodeError::EmptyTree));
}
