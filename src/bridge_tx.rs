use vstd::prelude::*;
use crate::bytes::{append_bytes, le_bytes, u64_le_bytes};
use crate::hashing::{double_hash, sha256d};
use crate::message::MessageType;

verus! {

/// The semantic fields of one bridge transfer, from which its leaf hash is derived.
#[derive(Debug)]
pub struct BridgeTxInfo {
    pub from: [u8; 32],
    pub to: [u8; 32],
    pub amount: u64,
    pub bridge_tx_index: u64,
    pub message_type: MessageType,
}

/// The canonical byte layout of a transfer:
/// `from || to || amount (8 bytes LE) || index (8 bytes LE) || message type tag`.
pub open spec fn leaf_preimage(
    from: Seq<u8>,
    to: Seq<u8>,
    amount: u64,
    bridge_tx_index: u64,
    message_type: MessageType,
) -> Seq<u8> {
    from + to + le_bytes(amount as nat, 8) + le_bytes(bridge_tx_index as nat, 8)
        + message_type.encoding()
}

/// The canonical leaf hash of a transfer.
pub open spec fn leaf_hash(
    from: Seq<u8>,
    to: Seq<u8>,
    amount: u64,
    bridge_tx_index: u64,
    message_type: MessageType,
) -> Seq<u8> {
    sha256d(leaf_preimage(from, to, amount, bridge_tx_index, message_type))
}

impl BridgeTxInfo {
    pub open spec fn preimage(&self) -> Seq<u8> {
        leaf_preimage(self.from@, self.to@, self.amount, self.bridge_tx_index, self.message_type)
    }

    pub open spec fn hash_spec(&self) -> Seq<u8> {
        leaf_hash(self.from@, self.to@, self.amount, self.bridge_tx_index, self.message_type)
    }

    /// A transfer with bridge index zero.
    pub fn new(from: [u8; 32], to: [u8; 32], amount: u64, message_type: MessageType) -> (r: Self)
        ensures
            r.from == from,
            r.to == to,
            r.amount == amount,
            r.bridge_tx_index == 0,
            r.message_type == message_type,
    {
        Self { from, to, amount, bridge_tx_index: 0, message_type }
    }

    pub fn to_bytes(&self) -> (r: Vec<u8>)
        ensures
            r@ == self.preimage(),
    {
        let mut bytes: Vec<u8> = Vec::new();
        append_bytes(&mut bytes, &self.from);
        append_bytes(&mut bytes, &self.to);
        let amount = u64_le_bytes(self.amount);
        append_bytes(&mut bytes, amount.as_slice());
        let index = u64_le_bytes(self.bridge_tx_index);
        append_bytes(&mut bytes, index.as_slice());
        let tag = self.message_type.to_bytes();
        append_bytes(&mut bytes, tag.as_slice());
        assert(bytes@ =~= self.preimage());
        bytes
    }

    pub fn double_hash(&self) -> (r: Vec<u8>)
        ensures
            r@ == self.hash_spec(),
            r@.len() == 32,
    {
        let m = self.to_bytes();
        double_hash(m.as_slice())
    }

    pub fn double_hash_array(&self) -> (r: [u8; 32])
        ensures
            r@ == self.hash_spec(),
    {
        let m = self.double_hash();
        let mut array = [0u8; 32];
        let mut i: usize = 0;
        while i < 32
            invariant
                i <= 32,
                m@.len() == 32,
                array@.len() == 32,
                forall|j: int| 0 <= j < i ==> array@[j] == m@[j],
            decreases 32 - i,
        {
            array[i] = m[i];
            i = i + 1;
        }
        assert(array@ =~= m@);
        array
    }
}

/// Two computations of the leaf hash of the same transfer give the same bytes.
pub proof fn lemma_leaf_hash_deterministic(a: &BridgeTxInfo, b: &BridgeTxInfo)
    requires
        a.from == b.from,
        a.to == b.to,
        a.amount == b.amount,
        a.bridge_tx_index == b.bridge_tx_index,
        a.message_type == b.message_type,
    ensures
        a.hash_spec() == b.hash_spec(),
        a.preimage().len() == 84,
{
    crate::bytes::lemma_le_bytes_len(a.amount as nat, 8);
    crate::bytes::lemma_le_bytes_len(a.bridge_tx_index as nat, 8);
    crate::bytes::lemma_le_bytes_len(a.message_type.index(), 4);
}

/// Optional fields of a bridge transaction, as handed to and from clients.
#[derive(Debug, Clone)]
pub struct BridgeTxData {
    pub slot: Option<i64>,
    pub signature: Option<String>,
    pub tx_info_hash: Option<Vec<u8>>,
    pub proof: Option<String>,
}

/// A stored bridge transaction, as the ledger returns it.
#[derive(Debug, Clone)]
pub struct BridgeTxRow {
    pub id: i64,
    pub slot: i64,
    pub signature: String,
    pub tx_info_hash: Vec<u8>,
    pub proof: String,
    pub is_generated_proof: bool,
    pub current_mt_root: Vec<u8>,
    pub root_program_slot: i64,
    /// Last write time, in seconds since the Unix epoch.
    pub updated_on: i64,
}

/// A bridge transaction to be written to the ledger.
#[derive(Debug, Clone)]
pub struct BridgeTxRecord {
    pub slot: i64,
    pub signature: String,
    pub tx_info_hash: Vec<u8>,
    pub proof: String,
    pub is_generated_proof: bool,
    pub root_program_slot: i64,
    pub current_mt_root: Vec<u8>,
}

/// The value of a `BridgeTxRecord`.
pub struct RecordView {
    pub slot: i64,
    pub signature: Seq<char>,
    pub tx_info_hash: Seq<u8>,
    pub proof: Seq<char>,
    pub is_generated_proof: bool,
    pub root_program_slot: i64,
    pub current_mt_root: Seq<u8>,
}

impl View for BridgeTxRecord {
    type V = RecordView;

    open spec fn view(&self) -> RecordView {
        RecordView {
            slot: self.slot,
            signature: self.signature@,
            tx_info_hash: self.tx_info_hash@,
            proof: self.proof@,
            is_generated_proof: self.is_generated_proof,
            root_program_slot: self.root_program_slot,
            current_mt_root: self.current_mt_root@,
        }
    }
}

/// The values of a sequence of records.
pub open spec fn records_view(v: Seq<BridgeTxRecord>) -> Seq<RecordView> {
    v.map(|_i, r: BridgeTxRecord| r@)
}

pub proof fn lemma_records_view_push(s: Seq<BridgeTxRecord>, x: BridgeTxRecord)
    ensures
        records_view(s.push(x)) == records_view(s).push(x@),
{
    assert(records_view(s.push(x)) =~= records_view(s).push(x@));
}

impl From<BridgeTxRow> for BridgeTxRecord {
    fn from(btr: BridgeTxRow) -> (r: Self) {
        BridgeTxRecord {
            slot: btr.slot,
            signature: btr.signature,
            tx_info_hash: btr.tx_info_hash,
            proof: btr.proof,
            is_generated_proof: btr.is_generated_proof,
            root_program_slot: 0,
            current_mt_root: btr.current_mt_root,
        }
    }
}

impl vstd::std_specs::convert::FromSpecImpl<BridgeTxRow> for BridgeTxRecord {
    open spec fn obeys_from_spec() -> bool {
        true
    }

    /// Keeps every field the two have in common but the root program slot,
    /// which is reset to zero.
    open spec fn from_spec(btr: BridgeTxRow) -> BridgeTxRecord {
        BridgeTxRecord {
            slot: btr.slot,
            signature: btr.signature,
            tx_info_hash: btr.tx_info_hash,
            proof: btr.proof,
            is_generated_proof: btr.is_generated_proof,
            root_program_slot: 0,
            current_mt_root: btr.current_mt_root,
        }
    }
}

} // verus!
