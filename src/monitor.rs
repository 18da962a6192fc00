use vstd::prelude::*;
use crate::bridge_tx::{records_view, BridgeTxRecord, RecordView};
use crate::bridge_tx_repo::{apply_proof, in_slot_range, sorted_by_slot};
use crate::bytes::{append_bytes, copy_bytes};
use crate::encoding::{hex_encode, hex_of};
use crate::error::NodeError;
use crate::merkle::{
    hashes_view, lemma_hashes_view_push, proof_of, root_of, verify_root, MerkleMirror,
};

verus! {

/// The leaf hashes of a sequence of records.
pub open spec fn row_hashes(rows: Seq<RecordView>) -> Seq<Seq<u8>> {
    rows.map(|_i, r: RecordView| r.tx_info_hash)
}

/// The hashes of `s` written one after the other.
pub open spec fn concat_hashes(s: Seq<Seq<u8>>) -> Seq<u8>
    decreases s.len(),
{
    if s.len() == 0 {
        Seq::empty()
    } else {
        concat_hashes(s.drop_last()) + s.last()
    }
}

/// The stored form of the inclusion proof of leaf `i`: its hashes, leaf to
/// root, as one lowercase hexadecimal text.
pub open spec fn proof_text(leaves: Seq<Seq<u8>>, i: nat) -> Seq<char> {
    hex_of(concat_hashes(proof_of(leaves, i)))
}

/// `rec` once its proof, at leaf `i` of the tree over `leaves` with root
/// `root`, is generated.
pub open spec fn proved_record(rec: RecordView, leaves: Seq<Seq<u8>>, i: nat, root: Seq<u8>) -> RecordView {
    RecordView {
        slot: rec.slot,
        signature: rec.signature,
        tx_info_hash: rec.tx_info_hash,
        proof: proof_text(leaves, i),
        is_generated_proof: true,
        root_program_slot: rec.root_program_slot,
        current_mt_root: root,
    }
}

/// What proving a checkpoint window gives: the tree over `prior` and the
/// window's leaves must have the published root `remote_root`; then each row
/// of the window gets its proof, its leaf index counting on from `prior`.
pub open spec fn window_outcome(prior: Seq<Seq<u8>>, rows: Seq<RecordView>, remote_root: Seq<u8>) -> Result<
    Seq<RecordView>,
    NodeError,
> {
    let all = prior + row_hashes(rows);
    if all.len() == 0 {
        Err(NodeError::EmptyTree)
    } else if root_of(all) != remote_root {
        Err(NodeError::Divergence)
    } else {
        Ok(
            Seq::new(
                rows.len(),
                |k: int| proved_record(rows[k], all, (prior.len() + k) as nat, remote_root),
            ),
        )
    }
}

/// The checkpoint slots after `last`, in their order.
pub open spec fn slots_after(slots: Seq<u64>, last: i64) -> Seq<u64>
    decreases slots.len(),
{
    if slots.len() == 0 {
        Seq::empty()
    } else if slots.last() as int > last as int {
        slots_after(slots.drop_last(), last).push(slots.last())
    } else {
        slots_after(slots.drop_last(), last)
    }
}

/// The rows of a run of checkpoint windows, in ledger order.
pub open spec fn flatten_windows(windows: Seq<Seq<RecordView>>) -> Seq<RecordView>
    decreases windows.len(),
{
    if windows.len() == 0 {
        Seq::empty()
    } else {
        flatten_windows(windows.drop_last()) + windows.last()
    }
}

/// The leaves of a mirror that has proved `windows` one after the other,
/// starting empty.
pub open spec fn leaves_after(windows: Seq<Seq<RecordView>>) -> Seq<Seq<u8>>
    decreases windows.len(),
{
    if windows.len() == 0 {
        Seq::empty()
    } else {
        leaves_after(windows.drop_last()) + row_hashes(windows.last())
    }
}

pub proof fn lemma_row_hashes_concat(a: Seq<RecordView>, b: Seq<RecordView>)
    ensures
        row_hashes(a + b) == row_hashes(a) + row_hashes(b),
{
    assert(row_hashes(a + b) =~= row_hashes(a) + row_hashes(b));
}

/// A restarted monitor, whose mirror is rehydrated from the ledger rows of
/// the windows already proved, proves the next window exactly as a monitor
/// that ran through those windows without stopping.
pub proof fn lemma_resume_same_proofs(
    windows: Seq<Seq<RecordView>>,
    next: Seq<RecordView>,
    remote_root: Seq<u8>,
)
    ensures
        leaves_after(windows) == row_hashes(flatten_windows(windows)),
        window_outcome(leaves_after(windows), next, remote_root) == window_outcome(
            row_hashes(flatten_windows(windows)),
            next,
            remote_root,
        ),
    decreases windows.len(),
{
    if windows.len() == 0 {
        assert(row_hashes(Seq::<RecordView>::empty()) =~= Seq::<Seq<u8>>::empty());
    } else {
        lemma_resume_same_proofs(windows.drop_last(), next, remote_root);
        lemma_row_hashes_concat(flatten_windows(windows.drop_last()), windows.last());
    }
}

/// Whenever the published root differs from the root rebuilt over the
/// mirror's leaves and the window's, proving the window fails with
/// `Divergence` and hands back no row.
pub proof fn lemma_divergence_always_detected(
    prior: Seq<Seq<u8>>,
    rows: Seq<RecordView>,
    remote_root: Seq<u8>,
)
    requires
        (prior + row_hashes(rows)).len() > 0,
        remote_root != root_of(prior + row_hashes(rows)),
    ensures
        window_outcome(prior, rows, remote_root) == Err::<Seq<RecordView>, NodeError>(
            NodeError::Divergence,
        ),
{
}

/// Two records stand for the same transaction with the same leaf: they
/// differ at most in their proof fields.
pub open spec fn same_identity(a: RecordView, b: RecordView) -> bool {
    &&& a.slot == b.slot
    &&& a.signature == b.signature
    &&& a.tx_info_hash == b.tx_info_hash
    &&& a.root_program_slot == b.root_program_slot
}

pub open spec fn same_identities(a: Seq<RecordView>, b: Seq<RecordView>) -> bool {
    a.len() == b.len() && forall|k: int| 0 <= k < a.len() ==> same_identity(#[trigger] a[k], b[k])
}

/// The ledger after the proof fields of `written` are stored, one after the other.
pub open spec fn apply_all(rows: Seq<RecordView>, written: Seq<RecordView>) -> Seq<RecordView>
    decreases written.len(),
{
    if written.len() == 0 {
        rows
    } else {
        apply_proof(apply_all(rows, written.drop_last()), written.last())
    }
}

/// The windows an uninterrupted monitor reads from `ledger`: the rows from
/// `lo` up to the first checkpoint, then those after each checkpoint up to
/// the next.
pub open spec fn windows_of(ledger: Seq<RecordView>, lo: i64, checkpoints: Seq<i64>) -> Seq<Seq<RecordView>>
    decreases checkpoints.len(),
{
    if checkpoints.len() == 0 {
        Seq::empty()
    } else if checkpoints.len() == 1 {
        seq![in_slot_range(ledger, lo, checkpoints[0])]
    } else {
        windows_of(ledger, lo, checkpoints.drop_last()).push(
            in_slot_range(
                ledger,
                (checkpoints[checkpoints.len() - 2] + 1) as i64,
                checkpoints.last(),
            ),
        )
    }
}

pub proof fn lemma_same_identities_hashes(a: Seq<RecordView>, b: Seq<RecordView>)
    requires
        same_identities(a, b),
    ensures
        row_hashes(a) == row_hashes(b),
{
    assert(row_hashes(a) =~= row_hashes(b));
}

/// Storing the proof fields of one record leaves every range of the ledger
/// with the same transactions and leaves.
pub proof fn lemma_apply_proof_keeps_identity(rows: Seq<RecordView>, r: RecordView, lo: i64, hi: i64)
    ensures
        same_identities(in_slot_range(apply_proof(rows, r), lo, hi), in_slot_range(rows, lo, hi)),
    decreases rows.len(),
{
    if rows.len() > 0 {
        let d = rows.drop_last();
        assert(apply_proof(rows, r).drop_last() =~= apply_proof(d, r));
        lemma_apply_proof_keeps_identity(d, r, lo, hi);
        let a = apply_proof(rows, r);
        assert(same_identity(a.last(), rows.last()));
    }
}

/// Storing any number of proofs leaves every range of the ledger with the
/// same transactions and leaves.
pub proof fn lemma_apply_all_keeps_identity(rows: Seq<RecordView>, written: Seq<RecordView>, lo: i64, hi: i64)
    ensures
        same_identities(in_slot_range(apply_all(rows, written), lo, hi), in_slot_range(rows, lo, hi)),
    decreases written.len(),
{
    if written.len() > 0 {
        lemma_apply_all_keeps_identity(rows, written.drop_last(), lo, hi);
        lemma_apply_proof_keeps_identity(apply_all(rows, written.drop_last()), written.last(), lo, hi);
    }
}

proof fn lemma_range_above_empty(rows: Seq<RecordView>, mid: i64, hi: i64)
    requires
        mid < hi,
        forall|j: int| 0 <= j < rows.len() ==> (#[trigger] rows[j]).slot <= mid,
    ensures
        in_slot_range(rows, (mid + 1) as i64, hi) == Seq::<RecordView>::empty(),
    decreases rows.len(),
{
    if rows.len() > 0 {
        let d = rows.drop_last();
        assert forall|j: int| 0 <= j < d.len() implies (#[trigger] d[j]).slot <= mid by {
            assert(d[j] == rows[j]);
        }
        lemma_range_above_empty(d, mid, hi);
    }
}

/// In a ledger ordered by slot, the rows of `lo..=hi` are those of
/// `lo..=mid` followed by those of `mid+1..=hi`.
pub proof fn lemma_range_split(rows: Seq<RecordView>, lo: i64, mid: i64, hi: i64)
    requires
        sorted_by_slot(rows),
        lo <= mid < hi,
    ensures
        in_slot_range(rows, lo, hi) == in_slot_range(rows, lo, mid) + in_slot_range(
            rows,
            (mid + 1) as i64,
            hi,
        ),
    decreases rows.len(),
{
    if rows.len() > 0 {
        let d = rows.drop_last();
        lemma_range_split(d, lo, mid, hi);
        let x = rows.last();
        if lo <= x.slot && x.slot <= mid {
            assert forall|j: int| 0 <= j < d.len() implies (#[trigger] d[j]).slot <= mid by {
                assert(rows[j].slot <= rows[rows.len() - 1].slot);
            }
            lemma_range_above_empty(d, mid, hi);
            assert(in_slot_range(rows, lo, hi) =~= in_slot_range(rows, lo, mid) + in_slot_range(
                rows,
                (mid + 1) as i64,
                hi,
            ));
        } else if mid < x.slot && x.slot <= hi {
            assert(in_slot_range(rows, lo, hi) =~= in_slot_range(rows, lo, mid) + in_slot_range(
                rows,
                (mid + 1) as i64,
                hi,
            ));
        }
    }
}

/// The mirror of a monitor that proved the windows up to the last checkpoint
/// without stopping holds the leaves of the ledger rows from `lo` up to that
/// checkpoint, in ledger order.
pub proof fn lemma_windows_leaves(ledger: Seq<RecordView>, lo: i64, checkpoints: Seq<i64>)
    requires
        sorted_by_slot(ledger),
        checkpoints.len() > 0,
        lo <= checkpoints[0],
        forall|i: int, j: int| 0 <= i < j < checkpoints.len() ==> checkpoints[i] < checkpoints[j],
    ensures
        leaves_after(windows_of(ledger, lo, checkpoints)) == row_hashes(
            in_slot_range(ledger, lo, checkpoints.last()),
        ),
    decreases checkpoints.len(),
{
    let w = windows_of(ledger, lo, checkpoints);
    if checkpoints.len() == 1 {
        assert(w.drop_last() =~= Seq::<Seq<RecordView>>::empty());
        assert(leaves_after(Seq::<Seq<RecordView>>::empty()) =~= Seq::<Seq<u8>>::empty());
        assert(Seq::<Seq<u8>>::empty() + row_hashes(w.last()) =~= row_hashes(w.last()));
    } else {
        let c = checkpoints.drop_last();
        let n = checkpoints.len();
        lemma_windows_leaves(ledger, lo, c);
        assert(c.last() == checkpoints[n - 2]);
        assert(w.drop_last() == windows_of(ledger, lo, c));
        lemma_range_split(ledger, lo, checkpoints[n - 2], checkpoints[n - 1]);
        lemma_row_hashes_concat(
            in_slot_range(ledger, lo, checkpoints[n - 2]),
            in_slot_range(ledger, (checkpoints[n - 2] + 1) as i64, checkpoints[n - 1]),
        );
    }
}

/// Proving a window depends on its rows only through their identity, not on
/// proof fields they may already carry.
pub proof fn lemma_window_outcome_identity(
    prior: Seq<Seq<u8>>,
    a: Seq<RecordView>,
    b: Seq<RecordView>,
    remote_root: Seq<u8>,
)
    requires
        same_identities(a, b),
    ensures
        window_outcome(prior, a, remote_root) == window_outcome(prior, b, remote_root),
{
    lemma_same_identities_hashes(a, b);
    let all = prior + row_hashes(a);
    if all.len() > 0 && root_of(all) == remote_root {
        assert(Seq::new(
            a.len(),
            |k: int| proved_record(a[k], all, (prior.len() + k) as nat, remote_root),
        ) =~= Seq::new(
            b.len(),
            |k: int| proved_record(b[k], all, (prior.len() + k) as nat, remote_root),
        ));
    }
}

/// A monitor killed after proving the windows up to checkpoint `c` (and
/// after storing any proofs `written`, completely or not) and restarted from
/// the ledger proves the next window up to `next` exactly as a monitor that
/// never stopped: the rehydrated mirror holds the same leaves, and the
/// window's rows are the same transactions.
pub proof fn lemma_restart_same_proofs(
    ledger: Seq<RecordView>,
    lo: i64,
    checkpoints: Seq<i64>,
    next: i64,
    written: Seq<RecordView>,
    remote_root: Seq<u8>,
)
    requires
        sorted_by_slot(ledger),
        checkpoints.len() > 0,
        lo <= checkpoints[0],
        forall|i: int, j: int| 0 <= i < j < checkpoints.len() ==> checkpoints[i] < checkpoints[j],
        checkpoints.last() < next,
    ensures
        leaves_after(windows_of(ledger, lo, checkpoints)) == row_hashes(
            in_slot_range(apply_all(ledger, written), lo, checkpoints.last()),
        ),
        window_outcome(
            leaves_after(windows_of(ledger, lo, checkpoints)),
            in_slot_range(ledger, (checkpoints.last() + 1) as i64, next),
            remote_root,
        ) == window_outcome(
            row_hashes(in_slot_range(apply_all(ledger, written), lo, checkpoints.last())),
            in_slot_range(apply_all(ledger, written), (checkpoints.last() + 1) as i64, next),
            remote_root,
        ),
{
    let c = checkpoints.last();
    lemma_windows_leaves(ledger, lo, checkpoints);
    lemma_apply_all_keeps_identity(ledger, written, lo, c);
    lemma_same_identities_hashes(
        in_slot_range(apply_all(ledger, written), lo, c),
        in_slot_range(ledger, lo, c),
    );
    lemma_apply_all_keeps_identity(ledger, written, (c + 1) as i64, next);
    lemma_window_outcome_identity(
        leaves_after(windows_of(ledger, lo, checkpoints)),
        in_slot_range(apply_all(ledger, written), (c + 1) as i64, next),
        in_slot_range(ledger, (c + 1) as i64, next),
        remote_root,
    );
}

/// Writes the hashes of `p` one after the other.
pub fn concat_proof(p: &Vec<Vec<u8>>) -> (r: Vec<u8>)
    ensures
        r@ == concat_hashes(hashes_view(p@)),
{
    let mut out: Vec<u8> = Vec::new();
    let mut i: usize = 0;
    while i < p.len()
        invariant
            i <= p@.len(),
            out@ == concat_hashes(hashes_view(p@).subrange(0, i as int)),
        decreases p@.len() - i,
    {
        let ghost next = hashes_view(p@).subrange(0, i + 1);
        assert(next.drop_last() =~= hashes_view(p@).subrange(0, i as int));
        append_bytes(&mut out, p[i].as_slice());
        i = i + 1;
    }
    assert(hashes_view(p@).subrange(0, p@.len() as int) =~= hashes_view(p@));
    out
}

/// The state the verification pipeline carries from one checkpoint to the next.
pub struct MonitorState {
    pub mirror: MerkleMirror,
    /// The last checkpoint slot whose rows all carry their proofs.
    pub last_proven_slot: i64,
}

impl MonitorState {
    pub open spec fn wf(&self) -> bool {
        self.mirror.wf()
    }

    /// Restores the state from the ledger: the leaf hashes of every row up to
    /// the last proven slot, in ledger order.
    pub fn rehydrate(last_proven_slot: i64, hashes: Vec<Vec<u8>>) -> (r: Self)
        ensures
            r.wf(),
            r.mirror@ == hashes_view(hashes@),
            r.last_proven_slot == last_proven_slot,
    {
        let mut mirror = MerkleMirror::new();
        mirror.add_leaves(hashes);
        MonitorState { mirror, last_proven_slot }
    }

    /// The published checkpoints still to prove.
    pub fn pending_checkpoints(&self, chain_slots: &Vec<u64>) -> (r: Vec<u64>)
        ensures
            r@ == slots_after(chain_slots@, self.last_proven_slot),
    {
        let mut out: Vec<u64> = Vec::new();
        let mut i: usize = 0;
        while i < chain_slots.len()
            invariant
                i <= chain_slots@.len(),
                out@ == slots_after(chain_slots@.subrange(0, i as int), self.last_proven_slot),
            decreases chain_slots@.len() - i,
        {
            let ghost next = chain_slots@.subrange(0, i + 1);
            assert(next.drop_last() =~= chain_slots@.subrange(0, i as int));
            let s = chain_slots[i];
            if self.last_proven_slot < 0 || s > self.last_proven_slot as u64 {
                out.push(s);
            }
            i = i + 1;
        }
        assert(chain_slots@.subrange(0, chain_slots@.len() as int) =~= chain_slots@);
        out
    }

    /// Appends the leaves of the rows of one checkpoint window, checks the
    /// rebuilt root against the published one and, where they agree, returns
    /// the rows with their proofs. The last proven slot is left as it was:
    /// it moves only once the rows are stored.
    pub fn prove_checkpoint(&mut self, rows: Vec<BridgeTxRecord>, remote_root: &Vec<u8>) -> (r: Result<
        Vec<BridgeTxRecord>,
        NodeError,
    >)
        requires
            old(self).wf(),
        ensures
            final(self).wf(),
            final(self).mirror@ == old(self).mirror@ + row_hashes(records_view(rows@)),
            final(self).last_proven_slot == old(self).last_proven_slot,
            r is Ok <==> window_outcome(old(self).mirror@, records_view(rows@), remote_root@) is Ok,
            r is Ok ==> records_view(r->Ok_0@) == window_outcome(
                old(self).mirror@,
                records_view(rows@),
                remote_root@,
            )->Ok_0,
            r is Err ==> r->Err_0 == window_outcome(
                old(self).mirror@,
                records_view(rows@),
                remote_root@,
            )->Err_0,
    {
        let ghost prior = self.mirror@;
        let ghost rv = records_view(rows@);
        let base = self.mirror.leaf_count();
        let mut hashes: Vec<Vec<u8>> = Vec::new();
        let mut i: usize = 0;
        while i < rows.len()
            invariant
                i <= rows@.len(),
                rv == records_view(rows@),
                hashes_view(hashes@) == row_hashes(rv).subrange(0, i as int),
            decreases rows@.len() - i,
        {
            let c = copy_bytes(&rows[i].tx_info_hash);
            let ghost before = hashes@;
            hashes.push(c);
            proof {
                lemma_hashes_view_push(before, c);
            }
            assert(hashes_view(hashes@) =~= row_hashes(rv).subrange(0, i + 1));
            i = i + 1;
        }
        assert(row_hashes(rv).subrange(0, rows@.len() as int) =~= row_hashes(rv));
        self.mirror.add_leaves(hashes);
        let ghost all = self.mirror@;
        let root = verify_root(&mut self.mirror, remote_root)?;
        let total = self.mirror.leaf_count();
        let mut out: Vec<BridgeTxRecord> = Vec::new();
        let mut k: usize = 0;
        while k < rows.len()
            invariant
                self.mirror.wf(),
                self.mirror.is_built(),
                self.mirror@ == all,
                all == prior + row_hashes(rv),
                rv == records_view(rows@),
                total == all.len(),
                base == prior.len(),
                root@ == remote_root@,
                root_of(all) == remote_root@,
                k <= rows@.len(),
                records_view(out@) == Seq::new(
                    k as nat,
                    |j: int| proved_record(rv[j], all, (prior.len() + j) as nat, remote_root@),
                ),
            decreases rows@.len() - k,
        {
            let proof = match self.mirror.proof_for_index(base + k) {
                Ok(p) => p,
                Err(e) => {
                    proof {
                        assert(false);
                    }
                    return Err(e);
                },
            };
            let text = hex_encode(concat_proof(&proof).as_slice());
            let row = &rows[k];
            let rec = BridgeTxRecord {
                slot: row.slot,
                signature: row.signature.clone(),
                tx_info_hash: copy_bytes(&row.tx_info_hash),
                proof: text,
                is_generated_proof: true,
                root_program_slot: row.root_program_slot,
                current_mt_root: copy_bytes(&root),
            };
            let ghost before = out@;
            out.push(rec);
            proof {
                crate::bridge_tx::lemma_records_view_push(before, rec);
            }
            assert(records_view(out@) =~= Seq::new(
                (k + 1) as nat,
                |j: int| proved_record(rv[j], all, (prior.len() + j) as nat, remote_root@),
            ));
            k = k + 1;
        }
        Ok(out)
    }

    /// Records that every row up to `checkpoint` is stored with its proof.
    /// The last proven slot never moves back.
    pub fn commit_checkpoint(&mut self, checkpoint: i64)
        ensures
            final(self).mirror == old(self).mirror,
            final(self).last_proven_slot == if checkpoint > old(self).last_proven_slot {
                checkpoint
            } else {
                old(self).last_proven_slot
            },
    {
        if checkpoint > self.last_proven_slot {
            self.last_proven_slot = checkpoint;
        }
    }
}

} // verus!
