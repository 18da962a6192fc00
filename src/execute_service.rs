use vstd::prelude::*;
use crate::bridge_tx::{
    leaf_hash, lemma_records_view_push, records_view, BridgeTxInfo, BridgeTxRecord, RecordView,
};
use crate::block_repo::BlockRepo;
use crate::bridge_tx::BridgeTxRow;
use crate::bridge_tx_repo::{
    copy_row, has_row_key, in_slot_range, insert_all, newly_inserted, apply_proof, row_view, same_key, with_proof, rows_view,
    BridgeTxRepo,
};
use crate::bytes::{bytes32_eq, le_value, u64_from_le_bytes};
use crate::merkle::hashes_view;
use crate::monitor::row_hashes;
use crate::encoding::{parse_pubkey, pubkey_from_base58, signature_base58, signature_text};
use crate::error::NodeError;
use crate::message::MessageType;
use crate::node_configs::ContractConfiguration;

verus! {

/// The opcode of the system program's native transfer instruction.
pub const SYSTEM_TRANSFER_OPCODE: u8 = 2;

/// The first slot the scan ever covers.
pub const INITIAL_SLOT: u64 = 2;

/// One instruction of a transaction, with its account indices and payload.
#[derive(Debug, Clone)]
pub struct CompiledInstruction {
    pub program_id_index: u8,
    pub accounts: Vec<u8>,
    pub data: Vec<u8>,
}

/// The instructions invoked from inside one top-level instruction.
#[derive(Debug, Clone)]
pub struct InnerInstructions {
    pub index: u8,
    pub instructions: Vec<CompiledInstruction>,
}

/// A transaction as read from the remote chain.
#[derive(Debug, Clone)]
pub struct TransactionRow {
    pub slot: i64,
    pub signatures: Vec<Vec<u8>>,
    pub account_keys: Vec<[u8; 32]>,
    pub inner_instructions: Option<Vec<InnerInstructions>>,
}

/// Whether `k` is one of `keys`.
pub open spec fn has_key(keys: Seq<[u8; 32]>, k: Seq<u8>) -> bool {
    exists|j: int| 0 <= j < keys.len() && (#[trigger] keys[j])@ == k
}

/// The first inner instruction of a transaction, where there is one.
pub open spec fn first_inner_instruction(tx: TransactionRow) -> Option<CompiledInstruction> {
    match tx.inner_instructions {
        Some(groups) => if groups@.len() > 0 && groups@[0].instructions@.len() > 0 {
            Some(groups@[0].instructions@[0])
        } else {
            None
        },
        None => None,
    }
}

/// The instruction has the shape of a native transfer: two accounts, a
/// payload of at least nine bytes, the transfer opcode first.
pub open spec fn is_transfer_shape(ix: CompiledInstruction) -> bool {
    &&& ix.accounts@.len() == 2
    &&& ix.data@.len() >= 9
    &&& ix.data@[0] == SYSTEM_TRANSFER_OPCODE
}

/// The transferred amount: the last eight payload bytes, little-endian.
pub open spec fn transfer_amount(ix: CompiledInstruction) -> nat {
    le_value(ix.data@.subrange(ix.data@.len() - 8, ix.data@.len() as int))
}

/// Every transaction lies in `start..=end`, in ascending slot order.
pub open spec fn txs_within(txs: Seq<TransactionRow>, start: i64, end: i64) -> bool {
    &&& forall|i: int| 0 <= i < txs.len() ==> start <= (#[trigger] txs[i]).slot <= end
    &&& forall|i: int, j: int| 0 <= i < j < txs.len() ==> txs[i].slot <= txs[j].slot
}

/// Whether every transaction lies in `start..=end`, in ascending slot order.
pub fn transactions_within(txs: &Vec<TransactionRow>, start: i64, end: i64) -> (r: bool)
    ensures
        r == txs_within(txs@, start, end),
{
    let mut i: usize = 0;
    while i < txs.len()
        invariant
            i <= txs@.len(),
            forall|k: int| 0 <= k < i ==> start <= (#[trigger] txs@[k]).slot <= end,
            forall|a: int, b: int| 0 <= a < b < i ==> txs@[a].slot <= txs@[b].slot,
        decreases txs@.len() - i,
    {
        let slot = txs[i].slot;
        if slot < start || slot > end {
            return false;
        }
        if i > 0 && txs[i - 1].slot > slot {
            return false;
        }
        assert forall|a: int, b: int| 0 <= a < b < i + 1 implies txs@[a].slot <= txs@[b].slot by {
            if b == i && a < i - 1 {
                assert(txs@[a].slot <= txs@[i - 1].slot);
            }
        }
        i = i + 1;
    }
    true
}

/// The record of a recognised transfer, before any proof exists.
pub open spec fn fresh_record(slot: i64, signature: Seq<char>, hash: Seq<u8>) -> RecordView {
    RecordView {
        slot,
        signature,
        tx_info_hash: hash,
        proof: Seq::empty(),
        is_generated_proof: false,
        root_program_slot: 0,
        current_mt_root: Seq::empty(),
    }
}

/// A stored row read back as a record: the root program slot is not carried over.
pub open spec fn row_as_record(r: RecordView) -> RecordView {
    RecordView { root_program_slot: 0, ..r }
}

/// Recognises the bridge transactions of a slot range.
pub struct ExecuteService {
    pub l2_msg_program_id: [u8; 32],
    pub l2_message_fund_account_pubkey: [u8; 32],
    pub system_program_id: [u8; 32],
    pub initial_slot: u64,
}

impl ExecuteService {
    /// The transaction names all three bridge accounts.
    pub open spec fn is_candidate(&self, keys: Seq<[u8; 32]>) -> bool {
        &&& has_key(keys, self.l2_msg_program_id@)
        &&& has_key(keys, self.l2_message_fund_account_pubkey@)
        &&& has_key(keys, self.system_program_id@)
    }

    /// What the first inner instruction of `tx` gives, its account indices
    /// resolved in `keys`: no record where it is not a native transfer; an
    /// error where it is one but refers to an account or a signature that the
    /// transaction does not hold.
    pub open spec fn record_spec(&self, tx: TransactionRow, keys: Seq<[u8; 32]>) -> Result<
        Option<RecordView>,
        NodeError,
    > {
        match first_inner_instruction(tx) {
            None => Ok(None),
            Some(ix) => if !is_transfer_shape(ix) {
                Ok(None)
            } else if ix.accounts@[0] as int >= keys.len() || ix.accounts@[1] as int >= keys.len()
                || tx.signatures@.len() == 0 || tx.signatures@[0]@.len() != 64 {
                Err(NodeError::MalformedRemoteData)
            } else {
                let from = keys[ix.accounts@[0] as int]@;
                let amount = transfer_amount(ix);
                Ok(
                    Some(
                        fresh_record(
                            tx.slot,
                            signature_base58(tx.signatures@[0]@),
                            leaf_hash(from, from, amount as u64, 0, MessageType::Native),
                        ),
                    ),
                )
            },
        }
    }

    /// What classifying one transaction gives: no record unless it names all
    /// three bridge accounts, else what its first inner instruction gives.
    pub open spec fn classify_spec(&self, tx: TransactionRow) -> Result<Option<RecordView>, NodeError> {
        if !self.is_candidate(tx.account_keys@) {
            Ok(None)
        } else {
            self.record_spec(tx, tx.account_keys@)
        }
    }

    /// The records of the bridge transfers among `txs`, in order, or the
    /// first error met.
    pub open spec fn classify_all(&self, txs: Seq<TransactionRow>) -> Result<Seq<RecordView>, NodeError>
        decreases txs.len(),
    {
        if txs.len() == 0 {
            Ok(Seq::empty())
        } else {
            match self.classify_all(txs.drop_last()) {
                Err(e) => Err(e),
                Ok(prev) => match self.classify_spec(txs.last()) {
                    Err(e) => Err(e),
                    Ok(None) => Ok(prev),
                    Ok(Some(r)) => Ok(prev.push(r)),
                },
            }
        }
    }

    /// Reads the three bridge accounts from their base58 text.
    pub fn new(contract: &ContractConfiguration) -> (r: Result<Self, NodeError>)
        ensures
            r is Ok <==> pubkey_from_base58(contract.l2_message_program_id@) is Some
                && pubkey_from_base58(contract.l2_message_fund_account_pubkey@) is Some
                && pubkey_from_base58(contract.system_program_id@) is Some,
            r is Err ==> r == Err::<Self, NodeError>(NodeError::InvalidAddress),
            r is Ok ==> r->Ok_0.l2_msg_program_id@ == pubkey_from_base58(
                contract.l2_message_program_id@,
            )->Some_0,
            r is Ok ==> r->Ok_0.l2_message_fund_account_pubkey@ == pubkey_from_base58(
                contract.l2_message_fund_account_pubkey@,
            )->Some_0,
            r is Ok ==> r->Ok_0.system_program_id@ == pubkey_from_base58(
                contract.system_program_id@,
            )->Some_0,
            r is Ok ==> r->Ok_0.initial_slot == INITIAL_SLOT,
    {
        let program = parse_pubkey(contract.l2_message_program_id.as_str());
        let fund = parse_pubkey(contract.l2_message_fund_account_pubkey.as_str());
        let system = parse_pubkey(contract.system_program_id.as_str());
        match (program, fund, system) {
            (Some(p), Some(f), Some(s)) => Ok(
                ExecuteService {
                    l2_msg_program_id: p,
                    l2_message_fund_account_pubkey: f,
                    system_program_id: s,
                    initial_slot: INITIAL_SLOT,
                },
            ),
            _ => Err(NodeError::InvalidAddress),
        }
    }

    pub fn get_initial_slot(&self) -> (r: Result<i64, NodeError>)
        requires
            self.initial_slot <= i64::MAX,
        ensures
            r == Ok::<i64, NodeError>(self.initial_slot as i64),
    {
        Ok(self.initial_slot as i64)
    }

    /// Whether `pubkeys` holds all three bridge accounts.
    pub fn check_bridge_message_pubkeys(&self, pubkeys: &Vec<[u8; 32]>) -> (r: bool)
        ensures
            r == self.is_candidate(pubkeys@),
    {
        contains_key(pubkeys, &self.l2_msg_program_id) && contains_key(
            pubkeys,
            &self.l2_message_fund_account_pubkey,
        ) && contains_key(pubkeys, &self.system_program_id)
    }

    /// The slot range is ordered and starts no earlier than the first slot scanned.
    pub open spec fn valid_range(&self, start_slot: i64, end_slot: i64) -> bool {
        start_slot <= end_slot && start_slot >= self.initial_slot
    }

    /// Classifies the transactions read for the slots `start_slot..=end_slot`:
    /// the records of the bridge transfers among them, in order. Transactions
    /// outside the range, or out of slot order, are malformed data.
    pub fn filter_bridge_tx(&self, start_slot: i64, end_slot: i64, transactions: &Vec<TransactionRow>) -> (r:
        Result<Vec<BridgeTxRecord>, NodeError>)
        ensures
            !self.valid_range(start_slot, end_slot) ==> r == Err::<Vec<BridgeTxRecord>, NodeError>(
                NodeError::InvalidSlotRange,
            ),
            self.valid_range(start_slot, end_slot) && !txs_within(transactions@, start_slot, end_slot)
                ==> r == Err::<Vec<BridgeTxRecord>, NodeError>(NodeError::MalformedRemoteData),
            self.valid_range(start_slot, end_slot) && txs_within(transactions@, start_slot, end_slot)
                ==> (r is Ok <==> self.classify_all(transactions@) is Ok),
            self.valid_range(start_slot, end_slot) && txs_within(transactions@, start_slot, end_slot)
                && r is Ok ==> records_view(r->Ok_0@) == self.classify_all(transactions@)->Ok_0,
            self.valid_range(start_slot, end_slot) && txs_within(transactions@, start_slot, end_slot)
                && r is Err ==> r->Err_0 == self.classify_all(transactions@)->Err_0,
            r is Ok ==> forall|k: int|
                0 <= k < r->Ok_0@.len() ==> start_slot <= (#[trigger] r->Ok_0@[k]).slot <= end_slot
                    && r->Ok_0@[k].tx_info_hash@.len() == 32 && r->Ok_0@[k].proof@.len() == 0
                    && !r->Ok_0@[k].is_generated_proof && r->Ok_0@[k].current_mt_root@.len() == 0,
            r is Ok ==> forall|k: int, l: int|
                0 <= k < l < r->Ok_0@.len() ==> r->Ok_0@[k].slot <= r->Ok_0@[l].slot,
    {
        if end_slot < start_slot {
            return Err(NodeError::InvalidSlotRange);
        }
        if start_slot < 0 || (start_slot as u64) < self.initial_slot || (end_slot as u64) < self.initial_slot {
            return Err(NodeError::InvalidSlotRange);
        }
        if !transactions_within(transactions, start_slot, end_slot) {
            return Err(NodeError::MalformedRemoteData);
        }
        let mut bridge_txs: Vec<BridgeTxRecord> = Vec::new();
        let mut i: usize = 0;
        assert(transactions@.subrange(0, 0) =~= Seq::<TransactionRow>::empty());
        assert(records_view(bridge_txs@) =~= Seq::<RecordView>::empty());
        while i < transactions.len()
            invariant
                i <= transactions@.len(),
                self.valid_range(start_slot, end_slot),
                txs_within(transactions@, start_slot, end_slot),
                self.classify_all(transactions@.subrange(0, i as int)) == Ok::<
                    Seq<RecordView>,
                    NodeError,
                >(records_view(bridge_txs@)),
                forall|k: int|
                    0 <= k < bridge_txs@.len() ==> start_slot <= (#[trigger] bridge_txs@[k]).slot
                        <= end_slot && bridge_txs@[k].tx_info_hash@.len() == 32
                        && bridge_txs@[k].proof@.len() == 0 && !bridge_txs@[k].is_generated_proof
                        && bridge_txs@[k].current_mt_root@.len() == 0,
                forall|k: int, l: int|
                    0 <= k < l < bridge_txs@.len() ==> bridge_txs@[k].slot <= bridge_txs@[l].slot,
                forall|k: int, j: int|
                    0 <= k < bridge_txs@.len() && i <= j < transactions@.len() ==> (#[trigger] bridge_txs@[k]).slot
                        <= (#[trigger] transactions@[j]).slot,
            decreases transactions@.len() - i,
        {
            let tx = &transactions[i];
            let ghost prefix = transactions@.subrange(0, i + 1);
            assert(prefix.drop_last() =~= transactions@.subrange(0, i as int));
            assert(prefix.last() == *tx);
            if self.check_bridge_message_pubkeys(&tx.account_keys) {
                match self.txraw_to_bridgetx(tx, &tx.account_keys) {
                    Err(e) => {
                        proof {
                            lemma_classify_all_err_extends(self, transactions@, i + 1);
                        }
                        return Err(e);
                    },
                    Ok(None) => {},
                    Ok(Some(rec)) => {
                        assert(rec.slot == tx.slot);
                        let ghost before = bridge_txs@;
                        bridge_txs.push(rec);
                        proof {
                            lemma_records_view_push(before, rec);
                            assert forall|k: int, j: int|
                                0 <= k < bridge_txs@.len() && i + 1 <= j < transactions@.len() implies (#[trigger] bridge_txs@[k]).slot
                                <= (#[trigger] transactions@[j]).slot by {
                                assert(transactions@[i as int].slot <= transactions@[j].slot);
                                if k < before.len() {
                                    assert(before[k].slot <= transactions@[i as int].slot);
                                }
                            }
                            assert forall|k: int, l: int|
                                0 <= k < l < bridge_txs@.len() implies bridge_txs@[k].slot <= bridge_txs@[l].slot by {
                                if l == before.len() {
                                    assert(before[k].slot <= transactions@[i as int].slot);
                                }
                            }
                        }
                    },
                }
            }
            i = i + 1;
        }
        assert(transactions@.subrange(0, transactions@.len() as int) =~= transactions@);
        Ok(bridge_txs)
    }

    /// The last row that carries its proof, as a record.
    pub fn get_last_has_proof_bridge_tx_from_pg_for_monitor(&self, repo: &BridgeTxRepo) -> (r: Result<
        BridgeTxRecord,
        NodeError,
    >)
        ensures
            r is Err <==> forall|j: int| 0 <= j < repo@.len() ==> !(#[trigger] repo@[j]).is_generated_proof,
            r is Err ==> r->Err_0 == NodeError::NotFound,
            r is Ok ==> exists|j: int|
                0 <= j < repo@.len() && r->Ok_0@ == row_as_record(#[trigger] repo@[j])
                    && repo@[j].is_generated_proof && forall|k: int|
                    j < k < repo@.len() ==> !(#[trigger] repo@[k]).is_generated_proof,
    {
        match repo.latest_row(true) {
            Ok(row) => Ok(BridgeTxRecord::from(row)),
            Err(e) => Err(e),
        }
    }

    /// Stores a batch of records, skipping those already stored; returns how
    /// many were added (at most `u32::MAX`).
    pub fn insert_bridge_txs(&self, repo: &mut BridgeTxRepo, bridge_txs: Vec<BridgeTxRecord>, now: i64) -> (r:
        Result<u32, NodeError>)
        requires
            old(repo).wf(),
        ensures
            final(repo).wf(),
            final(repo)@ == insert_all(old(repo)@, records_view(bridge_txs@)),
            r is Ok,
            r->Ok_0 as nat == if newly_inserted(old(repo)@, records_view(bridge_txs@)).len() <= u32::MAX {
                newly_inserted(old(repo)@, records_view(bridge_txs@)).len()
            } else {
                u32::MAX as nat
            },
    {
        let rows = repo.insert(bridge_txs, now)?;
        let n = rows.len();
        if n > u32::MAX as usize {
            Ok(u32::MAX)
        } else {
            Ok(n as u32)
        }
    }

    /// The leaf hashes of the stored rows with a slot in `from_slot..=to_slot`.
    pub fn brige_txs_hashes(&self, repo: &BridgeTxRepo, from_slot: i64, to_slot: i64) -> (r: Result<
        Vec<Vec<u8>>,
        NodeError,
    >)
        ensures
            r is Ok,
            hashes_view(r->Ok_0@) == row_hashes(in_slot_range(repo@, from_slot, to_slot)),
    {
        repo.bridge_tx_hashes(from_slot, to_slot)
    }

    /// The stored rows with a slot in `from_slot..=to_slot`, in slot order, as records.
    pub fn bridge_tx_range(&self, repo: &BridgeTxRepo, from_slot: i64, to_slot: i64) -> (r: Result<
        Vec<BridgeTxRecord>,
        NodeError,
    >)
        ensures
            r is Ok,
            records_view(r->Ok_0@) == in_slot_range(repo@, from_slot, to_slot).map(
                |_i, x: RecordView| row_as_record(x),
            ),
    {
        let rows = repo.range(from_slot, to_slot)?;
        let ghost rv = rows_view(rows@);
        let mut out: Vec<BridgeTxRecord> = Vec::new();
        let mut i: usize = 0;
        while i < rows.len()
            invariant
                i <= rows@.len(),
                rv == rows_view(rows@),
                records_view(out@) == rv.subrange(0, i as int).map(|_i, x: RecordView| row_as_record(x)),
            decreases rows@.len() - i,
        {
            let c = copy_row(&rows[i]);
            let rec = BridgeTxRecord::from(c);
            assert(rec@ == row_as_record(rv[i as int]));
            let ghost before = out@;
            out.push(rec);
            proof {
                lemma_records_view_push(before, rec);
            }
            assert(records_view(out@) =~= rv.subrange(0, i + 1).map(|_i, x: RecordView| row_as_record(x)));
            i = i + 1;
        }
        assert(rv.subrange(0, rows@.len() as int) =~= rv);
        Ok(out)
    }

    /// Writes the proof fields of `brige_tx_record` to the stored row with its
    /// slot and signature; the row keeps its id, leaf hash and root program slot.
    pub fn bridge_tx_update(&self, repo: &mut BridgeTxRepo, brige_tx_record: BridgeTxRecord, now: i64) -> (r:
        Result<BridgeTxRow, NodeError>)
        requires
            old(repo).wf(),
        ensures
            final(repo).wf(),
            final(repo).ids() == old(repo).ids(),
            !has_row_key(old(repo)@, brige_tx_record@) ==> r == Err::<BridgeTxRow, NodeError>(
                NodeError::NotFound,
            ) && final(repo)@ == old(repo)@,
            has_row_key(old(repo)@, brige_tx_record@) ==> r is Ok && final(repo)@ == apply_proof(
                old(repo)@,
                brige_tx_record@,
            ),
            r is Ok ==> r->Ok_0.updated_on == now && exists|j: int|
                0 <= j < old(repo)@.len() && same_key(#[trigger] old(repo)@[j], brige_tx_record@)
                    && row_view(r->Ok_0) == with_proof(old(repo)@[j], brige_tx_record@) && r->Ok_0.id
                    == old(repo).ids()[j],
    {
        repo.update(brige_tx_record, now)
    }

    /// The greatest slot among the recorded blocks, or zero when there is none.
    pub fn get_max_slot(&mut self, blocks: &mut BlockRepo) -> (r: Result<i64, NodeError>)
        ensures
            *final(self) == *old(self),
            final(blocks).rows@ == old(blocks).rows@,
            old(blocks).rows@.len() == 0 ==> r == Ok::<i64, NodeError>(0),
            old(blocks).rows@.len() > 0 ==> r is Ok && (exists|j: int|
                0 <= j < old(blocks).rows@.len() && r->Ok_0 == (#[trigger] old(blocks).rows@[j]).slot)
                && forall|k: int| 0 <= k < old(blocks).rows@.len() ==> (#[trigger] old(blocks).rows@[k]).slot <= r->Ok_0,
    {
        match blocks.show() {
            Ok(row) => Ok(row.slot),
            Err(_) => Ok(0),
        }
    }

    /// The record of `tx` if its first inner instruction is a native transfer,
    /// its account indices resolved in `pubkeys`. The sender stands as both
    /// ends of the transfer.
    pub fn txraw_to_bridgetx(&self, tx: &TransactionRow, pubkeys: &Vec<[u8; 32]>) -> (r: Result<
        Option<BridgeTxRecord>,
        NodeError,
    >)
        ensures
            r is Err <==> self.record_spec(*tx, pubkeys@) is Err,
            r is Err ==> r->Err_0 == self.record_spec(*tx, pubkeys@)->Err_0,
            r is Ok ==> (r->Ok_0 is Some <==> self.record_spec(*tx, pubkeys@)->Ok_0 is Some),
            r matches Ok(Some(rec)) ==> rec@ == self.record_spec(*tx, pubkeys@)->Ok_0->Some_0,
            r matches Ok(Some(rec)) ==> rec.tx_info_hash@.len() == 32,
    {
        let groups = match &tx.inner_instructions {
            Some(g) => g,
            None => {
                return Ok(None);
            },
        };
        if groups.len() == 0 {
            return Ok(None);
        }
        if groups[0].instructions.len() == 0 {
            return Ok(None);
        }
        let ix = &groups[0].instructions[0];
        let data_len = ix.data.len();
        if data_len < 9 {
            return Ok(None);
        }
        if ix.accounts.len() != 2 {
            return Ok(None);
        }
        if ix.data[0] != SYSTEM_TRANSFER_OPCODE {
            return Ok(None);
        }
        let from_index = ix.accounts[0] as usize;
        let to_index = ix.accounts[1] as usize;
        if from_index >= pubkeys.len() || to_index >= pubkeys.len() {
            return Err(NodeError::MalformedRemoteData);
        }
        if tx.signatures.len() == 0 || tx.signatures[0].len() != 64 {
            return Err(NodeError::MalformedRemoteData);
        }
        let from_account = pubkeys[from_index];
        let start = data_len - 8;
        let amount = u64_from_le_bytes(vstd::slice::slice_subrange(ix.data.as_slice(), start, data_len));
        let info = BridgeTxInfo {
            from: from_account,
            to: from_account,
            amount,
            bridge_tx_index: 0,
            message_type: MessageType::Native,
        };
        let tx_info_hash = info.double_hash();
        let signature = signature_text(first_signature(&tx.signatures[0]));
        Ok(
            Some(
                BridgeTxRecord {
                    slot: tx.slot,
                    signature,
                    tx_info_hash,
                    proof: String::new(),
                    is_generated_proof: false,
                    root_program_slot: 0,
                    current_mt_root: Vec::new(),
                },
            ),
        )
    }
}

/// Once classifying a prefix fails, classifying any longer prefix fails with
/// the same error.
pub proof fn lemma_classify_all_err_extends(svc: &ExecuteService, txs: Seq<TransactionRow>, k: int)
    requires
        0 <= k <= txs.len(),
        svc.classify_all(txs.subrange(0, k)) is Err,
    ensures
        svc.classify_all(txs) == svc.classify_all(txs.subrange(0, k)),
    decreases txs.len() - k,
{
    if k < txs.len() {
        let next = txs.subrange(0, k + 1);
        assert(next.drop_last() =~= txs.subrange(0, k));
        lemma_classify_all_err_extends(svc, txs, k + 1);
    } else {
        assert(txs.subrange(0, k) =~= txs);
    }
}

/// Whether `keys` holds `k`.
pub fn contains_key(keys: &Vec<[u8; 32]>, k: &[u8; 32]) -> (r: bool)
    ensures
        r == has_key(keys@, k@),
{
    let mut i: usize = 0;
    while i < keys.len()
        invariant
            i <= keys@.len(),
            forall|j: int| 0 <= j < i ==> (#[trigger] keys@[j])@ != k@,
        decreases keys@.len() - i,
    {
        if bytes32_eq(&keys[i], k) {
            return true;
        }
        i = i + 1;
    }
    false
}

/// The 64 bytes of a signature given as a vector of that length.
fn first_signature(v: &Vec<u8>) -> (r: [u8; 64])
    requires
        v@.len() == 64,
    ensures
        r@ == v@,
{
    let mut out = [0u8; 64];
    let mut i: usize = 0;
    while i < 64
        invariant
            i <= 64,
            v@.len() == 64,
            out@.len() == 64,
            forall|j: int| 0 <= j < i ==> out@[j] == v@[j],
        decreases 64 - i,
    {
        out[i] = v[i];
        i = i + 1;
    }
    assert(out@ =~= v@);
    out
}

} // verus!
