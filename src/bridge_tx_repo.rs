use vstd::prelude::*;
use crate::bridge_tx::{records_view, BridgeTxRecord, BridgeTxRow, RecordView};
use crate::error::NodeError;
use crate::bytes::copy_bytes;
use crate::merkle::{hashes_view, lemma_hashes_view_push};
use crate::monitor::row_hashes;

verus! {

/// The record a stored row holds.
pub open spec fn row_view(r: BridgeTxRow) -> RecordView {
    RecordView {
        slot: r.slot,
        signature: r.signature@,
        tx_info_hash: r.tx_info_hash@,
        proof: r.proof@,
        is_generated_proof: r.is_generated_proof,
        root_program_slot: r.root_program_slot,
        current_mt_root: r.current_mt_root@,
    }
}

pub open spec fn rows_view(v: Seq<BridgeTxRow>) -> Seq<RecordView> {
    v.map(|_i, r: BridgeTxRow| row_view(r))
}

/// Two records name the same transaction: same slot and same signature.
pub open spec fn same_key(a: RecordView, b: RecordView) -> bool {
    a.slot == b.slot && a.signature == b.signature
}

pub open spec fn has_row_key(rows: Seq<RecordView>, r: RecordView) -> bool {
    exists|j: int| 0 <= j < rows.len() && same_key(#[trigger] rows[j], r)
}

pub open spec fn sorted_by_slot(rows: Seq<RecordView>) -> bool {
    forall|i: int, j: int| 0 <= i < j < rows.len() ==> rows[i].slot <= rows[j].slot
}

pub open spec fn unique_keys(rows: Seq<RecordView>) -> bool {
    forall|i: int, j: int| 0 <= i < rows.len() && 0 <= j < rows.len() && i != j ==> !same_key(rows[i], rows[j])
}

/// How many rows have a slot at or before `slot`.
pub open spec fn count_at_or_before(rows: Seq<RecordView>, slot: i64) -> nat
    decreases rows.len(),
{
    if rows.len() == 0 {
        0
    } else {
        count_at_or_before(rows.drop_last(), slot) + if rows.last().slot <= slot {
            1nat
        } else {
            0nat
        }
    }
}

/// The ledger after inserting `r`: unchanged where a row with its key exists,
/// else `r` placed after every row of its slot or an earlier one.
pub open spec fn insert_one(rows: Seq<RecordView>, r: RecordView) -> Seq<RecordView> {
    if has_row_key(rows, r) {
        rows
    } else {
        rows.insert(count_at_or_before(rows, r.slot) as int, r)
    }
}

/// The ledger after inserting a batch, record by record.
pub open spec fn insert_all(rows: Seq<RecordView>, batch: Seq<RecordView>) -> Seq<RecordView>
    decreases batch.len(),
{
    if batch.len() == 0 {
        rows
    } else {
        insert_one(insert_all(rows, batch.drop_last()), batch.last())
    }
}

/// The records of a batch that inserting it actually adds, in batch order.
pub open spec fn newly_inserted(rows: Seq<RecordView>, batch: Seq<RecordView>) -> Seq<RecordView>
    decreases batch.len(),
{
    if batch.len() == 0 {
        Seq::empty()
    } else if has_row_key(insert_all(rows, batch.drop_last()), batch.last()) {
        newly_inserted(rows, batch.drop_last())
    } else {
        newly_inserted(rows, batch.drop_last()).push(batch.last())
    }
}

/// The rows whose slot lies in `from..=to`, in ledger order.
pub open spec fn in_slot_range(rows: Seq<RecordView>, from: i64, to: i64) -> Seq<RecordView>
    decreases rows.len(),
{
    if rows.len() == 0 {
        Seq::empty()
    } else if from <= rows.last().slot && rows.last().slot <= to {
        in_slot_range(rows.drop_last(), from, to).push(rows.last())
    } else {
        in_slot_range(rows.drop_last(), from, to)
    }
}

/// A stored row once the proof fields of `r` are written to it: its proof,
/// proof flag and Merkle root are `r`'s; everything else stays as stored.
pub open spec fn with_proof(stored: RecordView, r: RecordView) -> RecordView {
    RecordView {
        proof: r.proof,
        is_generated_proof: r.is_generated_proof,
        current_mt_root: r.current_mt_root,
        ..stored
    }
}

/// The ledger once the proof fields of `r` are written to the row of its key.
pub open spec fn apply_proof(rows: Seq<RecordView>, r: RecordView) -> Seq<RecordView> {
    Seq::new(rows.len(), |j: int| if same_key(rows[j], r) { with_proof(rows[j], r) } else { rows[j] })
}

pub proof fn lemma_count_splits_sorted(rows: Seq<RecordView>, slot: i64)
    requires
        sorted_by_slot(rows),
    ensures
        count_at_or_before(rows, slot) <= rows.len(),
        forall|j: int| 0 <= j < count_at_or_before(rows, slot) ==> (#[trigger] rows[j]).slot <= slot,
        forall|j: int| count_at_or_before(rows, slot) <= j < rows.len() ==> (#[trigger] rows[j]).slot > slot,
    decreases rows.len(),
{
    if rows.len() > 0 {
        let d = rows.drop_last();
        lemma_count_splits_sorted(d, slot);
        if rows.last().slot <= slot {
            assert forall|j: int| 0 <= j < rows.len() implies (#[trigger] rows[j]).slot <= slot by {
                if j < rows.len() - 1 {
                    assert(rows[j].slot <= rows[rows.len() - 1].slot);
                }
            }
            if count_at_or_before(d, slot) < d.len() {
                let c = count_at_or_before(d, slot) as int;
                assert(d[c].slot > slot);
                assert(rows[c] == d[c]);
                assert(rows[c].slot <= rows[rows.len() - 1].slot);
            }
            assert(count_at_or_before(d, slot) == d.len());
        } else {
            assert forall|j: int| 0 <= j < count_at_or_before(rows, slot) implies (#[trigger] rows[j]).slot <= slot by {
                assert(d[j] == rows[j]);
            }
            assert forall|j: int| count_at_or_before(rows, slot) <= j < rows.len() implies (#[trigger] rows[j]).slot > slot by {
                if j < rows.len() - 1 {
                    assert(d[j] == rows[j]);
                }
            }
        }
    }
}

pub proof fn lemma_insert_one_invariants(rows: Seq<RecordView>, r: RecordView)
    requires
        sorted_by_slot(rows),
        unique_keys(rows),
    ensures
        sorted_by_slot(insert_one(rows, r)),
        unique_keys(insert_one(rows, r)),
        has_row_key(insert_one(rows, r), r),
        forall|x: RecordView| has_row_key(rows, x) ==> #[trigger] has_row_key(insert_one(rows, r), x),
{
    if !has_row_key(rows, r) {
        let c = count_at_or_before(rows, r.slot) as int;
        lemma_count_splits_sorted(rows, r.slot);
        let n = rows.insert(c, r);
        assert(n[c] == r);
        assert forall|x: RecordView| has_row_key(rows, x) implies #[trigger] has_row_key(n, x) by {
            let j = choose|j: int| 0 <= j < rows.len() && same_key(#[trigger] rows[j], x);
            if j < c {
                assert(n[j] == rows[j]);
            } else {
                assert(n[j + 1] == rows[j]);
            }
        }
        assert forall|i: int, j: int| 0 <= i < j < n.len() implies n[i].slot <= n[j].slot by {
            if j < c {
            } else if j == c {
            } else if i < c {
            } else if i == c {
                assert(n[j] == rows[j - 1]);
            } else {
                assert(n[i] == rows[i - 1]);
                assert(n[j] == rows[j - 1]);
            }
        }
        assert forall|i: int, j: int| 0 <= i < n.len() && 0 <= j < n.len() && i != j implies !same_key(n[i], n[j]) by {
            if i != c && j != c {
                let oi = if i < c { i } else { i - 1 };
                let oj = if j < c { j } else { j - 1 };
                assert(n[i] == rows[oi]);
                assert(n[j] == rows[oj]);
            } else if i == c {
                let oj = if j < c { j } else { j - 1 };
                assert(n[j] == rows[oj]);
            } else {
                let oi = if i < c { i } else { i - 1 };
                assert(n[i] == rows[oi]);
            }
        }
    }
}

pub proof fn lemma_insert_all_invariants(rows: Seq<RecordView>, batch: Seq<RecordView>)
    requires
        sorted_by_slot(rows),
        unique_keys(rows),
    ensures
        sorted_by_slot(insert_all(rows, batch)),
        unique_keys(insert_all(rows, batch)),
        forall|k: int| 0 <= k < batch.len() ==> has_row_key(insert_all(rows, batch), #[trigger] batch[k]),
        forall|x: RecordView| has_row_key(rows, x) ==> #[trigger] has_row_key(insert_all(rows, batch), x),
    decreases batch.len(),
{
    if batch.len() > 0 {
        let d = batch.drop_last();
        lemma_insert_all_invariants(rows, d);
        let w = insert_all(rows, d);
        lemma_insert_one_invariants(w, batch.last());
        assert forall|k: int| 0 <= k < batch.len() implies has_row_key(insert_all(rows, batch), #[trigger] batch[k]) by {
            if k < batch.len() - 1 {
                assert(batch[k] == d[k]);
            }
        }
    }
}

/// Inserting records whose keys are all present changes nothing.
pub proof fn lemma_insert_all_present(rows: Seq<RecordView>, batch: Seq<RecordView>)
    requires
        forall|k: int| 0 <= k < batch.len() ==> has_row_key(rows, #[trigger] batch[k]),
    ensures
        insert_all(rows, batch) == rows,
        newly_inserted(rows, batch) == Seq::<RecordView>::empty(),
    decreases batch.len(),
{
    if batch.len() > 0 {
        let d = batch.drop_last();
        assert forall|k: int| 0 <= k < d.len() implies has_row_key(rows, #[trigger] d[k]) by {
            assert(d[k] == batch[k]);
        }
        lemma_insert_all_present(rows, d);
        assert(has_row_key(rows, batch[batch.len() - 1]));
    }
}

/// Inserting the same batch twice leaves the ledger as inserting it once, and
/// the second insertion adds no row.
pub proof fn lemma_insert_idempotent(rows: Seq<RecordView>, batch: Seq<RecordView>)
    requires
        sorted_by_slot(rows),
        unique_keys(rows),
    ensures
        insert_all(insert_all(rows, batch), batch) == insert_all(rows, batch),
        newly_inserted(insert_all(rows, batch), batch) == Seq::<RecordView>::empty(),
{
    lemma_insert_all_invariants(rows, batch);
    lemma_insert_all_present(insert_all(rows, batch), batch);
}

pub proof fn lemma_rows_view_push(s: Seq<BridgeTxRow>, x: BridgeTxRow)
    ensures
        rows_view(s.push(x)) == rows_view(s).push(row_view(x)),
{
    assert(rows_view(s.push(x)) =~= rows_view(s).push(row_view(x)));
}

/// A field-by-field copy of a row.
pub fn copy_row(r: &BridgeTxRow) -> (c: BridgeTxRow)
    ensures
        row_view(c) == row_view(*r),
        c.id == r.id,
        c.updated_on == r.updated_on,
{
    BridgeTxRow {
        id: r.id,
        slot: r.slot,
        signature: r.signature.clone(),
        tx_info_hash: copy_bytes(&r.tx_info_hash),
        proof: r.proof.clone(),
        is_generated_proof: r.is_generated_proof,
        current_mt_root: copy_bytes(&r.current_mt_root),
        root_program_slot: r.root_program_slot,
        updated_on: r.updated_on,
    }
}

/// The stored row of `rec`, with its id and write time.
fn row_of(rec: &BridgeTxRecord, id: i64, now: i64) -> (r: BridgeTxRow)
    ensures
        row_view(r) == rec@,
        r.id == id,
        r.updated_on == now,
{
    BridgeTxRow {
        id,
        slot: rec.slot,
        signature: rec.signature.clone(),
        tx_info_hash: copy_bytes(&rec.tx_info_hash),
        proof: rec.proof.clone(),
        is_generated_proof: rec.is_generated_proof,
        current_mt_root: copy_bytes(&rec.current_mt_root),
        root_program_slot: rec.root_program_slot,
        updated_on: now,
    }
}

/// The bridge transaction ledger: rows kept in slot order, at most one per
/// slot and signature.
pub struct BridgeTxRepo {
    rows: Vec<BridgeTxRow>,
}

impl View for BridgeTxRepo {
    type V = Seq<RecordView>;

    closed spec fn view(&self) -> Seq<RecordView> {
        rows_view(self.rows@)
    }
}

impl BridgeTxRepo {
    /// The ids of the stored rows, in ledger order.
    pub closed spec fn ids(&self) -> Seq<i64> {
        self.rows@.map(|_i, x: BridgeTxRow| x.id)
    }

    pub open spec fn wf(&self) -> bool {
        sorted_by_slot(self@) && unique_keys(self@)
    }

    pub fn new() -> (r: Self)
        ensures
            r.wf(),
            r@ == Seq::<RecordView>::empty(),
    {
        let r = BridgeTxRepo { rows: Vec::new() };
        assert(r@ =~= Seq::<RecordView>::empty());
        r
    }

    /// The index of the row with `rec`'s key, if any.
    fn find_key(&self, slot: i64, signature: &String) -> (r: Option<usize>)
        ensures
            r is None ==> forall|j: int|
                0 <= j < self@.len() ==> !((#[trigger] self@[j]).slot == slot && self@[j].signature
                    == signature@),
            r is Some ==> r->Some_0 < self@.len() && self@[r->Some_0 as int].slot == slot
                && self@[r->Some_0 as int].signature == signature@,
    {
        let mut i: usize = 0;
        while i < self.rows.len()
            invariant
                i <= self.rows@.len(),
                self@ == rows_view(self.rows@),
                forall|j: int|
                    0 <= j < i ==> !((#[trigger] self@[j]).slot == slot && self@[j].signature
                        == signature@),
            decreases self.rows@.len() - i,
        {
            if self.rows[i].slot == slot && self.rows[i].signature == *signature {
                return Some(i);
            }
            i = i + 1;
        }
        None
    }

    /// How many rows have a slot at or before `slot`.
    fn count_up_to(&self, slot: i64) -> (r: usize)
        ensures
            r == count_at_or_before(self@, slot),
    {
        let mut i: usize = 0;
        let mut c: usize = 0;
        while i < self.rows.len()
            invariant
                i <= self.rows@.len(),
                c <= i,
                self@ == rows_view(self.rows@),
                c == count_at_or_before(self@.subrange(0, i as int), slot),
            decreases self.rows@.len() - i,
        {
            assert(self@.subrange(0, i + 1).drop_last() =~= self@.subrange(0, i as int));
            if self.rows[i].slot <= slot {
                c = c + 1;
            }
            i = i + 1;
        }
        assert(self@.subrange(0, self.rows@.len() as int) =~= self@);
        c
    }

    /// The row with the latest slot.
    pub fn show(&self) -> (r: Result<BridgeTxRow, NodeError>)
        ensures
            self@.len() == 0 ==> r == Err::<BridgeTxRow, NodeError>(NodeError::NotFound),
            self@.len() > 0 ==> r is Ok && row_view(r->Ok_0) == self@.last(),
    {
        if self.rows.len() == 0 {
            return Err(NodeError::NotFound);
        }
        Ok(copy_row(&self.rows[self.rows.len() - 1]))
    }

    /// Inserts a batch; a record whose slot and signature are already stored
    /// is skipped. Returns the rows that were added, stamped with `now`.
    pub fn insert(&mut self, records: Vec<BridgeTxRecord>, now: i64) -> (r: Result<Vec<BridgeTxRow>, NodeError>)
        requires
            old(self).wf(),
        ensures
            final(self).wf(),
            final(self)@ == insert_all(old(self)@, records_view(records@)),
            r is Ok,
            rows_view(r->Ok_0@) == newly_inserted(old(self)@, records_view(records@)),
    {
        let ghost start = self@;
        let ghost batch = records_view(records@);
        let mut added: Vec<BridgeTxRow> = Vec::new();
        let mut i: usize = 0;
        assert(batch.subrange(0, 0) =~= Seq::<RecordView>::empty());
        assert(rows_view(added@) =~= Seq::<RecordView>::empty());
        while i < records.len()
            invariant
                i <= records@.len(),
                batch == records_view(records@),
                sorted_by_slot(start),
                unique_keys(start),
                self.wf(),
                self@ == insert_all(start, batch.subrange(0, i as int)),
                rows_view(added@) == newly_inserted(start, batch.subrange(0, i as int)),
            decreases records@.len() - i,
        {
            let rec = &records[i];
            let ghost pre = batch.subrange(0, i as int);
            let ghost next = batch.subrange(0, i + 1);
            assert(next.drop_last() =~= pre);
            assert(next.last() == rec@);
            proof {
                lemma_insert_one_invariants(self@, rec@);
            }
            match self.find_key(rec.slot, &rec.signature) {
                Some(_) => {
                    assert(has_row_key(self@, rec@));
                },
                None => {
                    assert(!has_row_key(self@, rec@));
                    let pos = self.count_up_to(rec.slot);
                    let n = self.rows.len();
                    let id: i64 = if (n as u64) < 0x7fff_ffff_ffff_fffe {
                        n as i64 + 1
                    } else {
                        0x7fff_ffff_ffff_ffff
                    };
                    let row = row_of(rec, id, now);
                    let copy = copy_row(&row);
                    proof {
                        lemma_count_splits_sorted(self@, rec.slot);
                    }
                    let ghost old_rows = self.rows@;
                    self.rows.insert(pos, row);
                    assert(rows_view(self.rows@) =~= rows_view(old_rows).insert(pos as int, rec@));
                    let ghost before = added@;
                    added.push(copy);
                    proof {
                        lemma_rows_view_push(before, copy);
                    }
                },
            }
            i = i + 1;
        }
        assert(batch.subrange(0, records@.len() as int) =~= batch);
        Ok(added)
    }

    /// Writes the proof fields of `record` (proof, proof flag, Merkle root) to
    /// the row with its slot and signature, stamped with `now`. The row keeps
    /// its id, leaf hash and root program slot.
    pub fn update(&mut self, record: BridgeTxRecord, now: i64) -> (r: Result<BridgeTxRow, NodeError>)
        requires
            old(self).wf(),
        ensures
            final(self).wf(),
            final(self).ids() == old(self).ids(),
            !has_row_key(old(self)@, record@) ==> r == Err::<BridgeTxRow, NodeError>(NodeError::NotFound)
                && final(self)@ == old(self)@,
            has_row_key(old(self)@, record@) ==> r is Ok && final(self)@ == apply_proof(
                old(self)@,
                record@,
            ),
            r is Ok ==> r->Ok_0.updated_on == now && exists|j: int|
                0 <= j < old(self)@.len() && same_key(#[trigger] old(self)@[j], record@) && row_view(
                    r->Ok_0,
                ) == with_proof(old(self)@[j], record@) && r->Ok_0.id == old(self).ids()[j],
    {
        match self.find_key(record.slot, &record.signature) {
            None => {
                assert(!has_row_key(self@, record@));
                Err(NodeError::NotFound)
            },
            Some(j) => {
                let ghost old_view = self@;
                let ghost old_ids = self.ids();
                let stored = &self.rows[j];
                let row = BridgeTxRow {
                    id: stored.id,
                    slot: stored.slot,
                    signature: stored.signature.clone(),
                    tx_info_hash: copy_bytes(&stored.tx_info_hash),
                    proof: record.proof.clone(),
                    is_generated_proof: record.is_generated_proof,
                    current_mt_root: copy_bytes(&record.current_mt_root),
                    root_program_slot: stored.root_program_slot,
                    updated_on: now,
                };
                let copy = copy_row(&row);
                assert(row_view(row) == with_proof(old_view[j as int], record@));
                let ghost old_rows = self.rows@;
                self.rows.set(j, row);
                assert(self.ids() =~= old_ids);
                assert(self@ =~= apply_proof(old_view, record@)) by {
                    assert forall|k: int| 0 <= k < old_view.len() && k != j implies !same_key(
                        old_view[k],
                        record@,
                    ) by {
                        assert(!same_key(old_view[k], old_view[j as int]));
                    }
                    assert(rows_view(self.rows@) =~= rows_view(old_rows).update(
                        j as int,
                        with_proof(old_view[j as int], record@),
                    ));
                }
                assert forall|a: int, b: int| 0 <= a < b < self@.len() implies self@[a].slot
                    <= self@[b].slot by {
                    assert(old_view[a].slot <= old_view[b].slot);
                }
                assert forall|a: int, b: int|
                    0 <= a < self@.len() && 0 <= b < self@.len() && a != b implies !same_key(
                        self@[a],
                        self@[b],
                    ) by {
                    assert(!same_key(old_view[a], old_view[b]));
                }
                Ok(copy)
            },
        }
    }

    /// The rows with a slot in `from_slot..=to_slot`, in ascending slot order.
    pub fn range(&self, from_slot: i64, to_slot: i64) -> (r: Result<Vec<BridgeTxRow>, NodeError>)
        ensures
            r is Ok,
            rows_view(r->Ok_0@) == in_slot_range(self@, from_slot, to_slot),
    {
        let mut out: Vec<BridgeTxRow> = Vec::new();
        let mut i: usize = 0;
        assert(rows_view(out@) =~= in_slot_range(self@.subrange(0, 0), from_slot, to_slot));
        while i < self.rows.len()
            invariant
                i <= self.rows@.len(),
                self@ == rows_view(self.rows@),
                rows_view(out@) == in_slot_range(self@.subrange(0, i as int), from_slot, to_slot),
            decreases self.rows@.len() - i,
        {
            assert(self@.subrange(0, i + 1).drop_last() =~= self@.subrange(0, i as int));
            let row = &self.rows[i];
            if from_slot <= row.slot && row.slot <= to_slot {
                let c = copy_row(row);
                let ghost before = out@;
                out.push(c);
                proof {
                    lemma_rows_view_push(before, c);
                }
            }
            i = i + 1;
        }
        assert(self@.subrange(0, self.rows@.len() as int) =~= self@);
        Ok(out)
    }

    /// The leaf hashes of the rows with a slot in `from_slot..=to_slot`, in
    /// ascending slot order.
    pub fn bridge_tx_hashes(&self, from_slot: i64, to_slot: i64) -> (r: Result<Vec<Vec<u8>>, NodeError>)
        ensures
            r is Ok,
            hashes_view(r->Ok_0@) == row_hashes(in_slot_range(self@, from_slot, to_slot)),
    {
        let rows = match self.range(from_slot, to_slot) {
            Ok(rows) => rows,
            Err(e) => {
                return Err(e);
            },
        };
        let ghost rv = rows_view(rows@);
        let mut out: Vec<Vec<u8>> = Vec::new();
        let mut i: usize = 0;
        while i < rows.len()
            invariant
                i <= rows@.len(),
                rv == rows_view(rows@),
                hashes_view(out@) == row_hashes(rv).subrange(0, i as int),
            decreases rows@.len() - i,
        {
            let c = copy_bytes(&rows[i].tx_info_hash);
            let ghost before = out@;
            out.push(c);
            proof {
                lemma_hashes_view_push(before, c);
            }
            assert(hashes_view(out@) =~= row_hashes(rv).subrange(0, i + 1));
            i = i + 1;
        }
        assert(row_hashes(rv).subrange(0, rows@.len() as int) =~= row_hashes(rv));
        Ok(out)
    }

    /// The last row, in slot order, whose proof state is `has_proof`.
    pub fn latest_row(&self, has_proof: bool) -> (r: Result<BridgeTxRow, NodeError>)
        ensures
            r is Err <==> forall|j: int| 0 <= j < self@.len() ==> (#[trigger] self@[j]).is_generated_proof != has_proof,
            r is Err ==> r->Err_0 == NodeError::NotFound,
            r is Ok ==> exists|j: int|
                0 <= j < self@.len() && row_view(r->Ok_0) == #[trigger] self@[j]
                    && self@[j].is_generated_proof == has_proof && forall|k: int|
                    j < k < self@.len() ==> (#[trigger] self@[k]).is_generated_proof != has_proof,
    {
        let mut i: usize = self.rows.len();
        while i > 0
            invariant
                i <= self.rows@.len(),
                self@ == rows_view(self.rows@),
                forall|k: int| i <= k < self@.len() ==> (#[trigger] self@[k]).is_generated_proof != has_proof,
            decreases i,
        {
            if self.rows[i - 1].is_generated_proof == has_proof {
                let c = copy_row(&self.rows[i - 1]);
                assert(row_view(c) == self@[i - 1]);
                return Ok(c);
            }
            i = i - 1;
        }
        Err(NodeError::NotFound)
    }

    /// The first row, in slot order, that has no proof yet.
    pub fn earliest_without_proof(&self) -> (r: Result<BridgeTxRow, NodeError>)
        ensures
            r is Err <==> forall|j: int| 0 <= j < self@.len() ==> (#[trigger] self@[j]).is_generated_proof,
            r is Err ==> r->Err_0 == NodeError::NotFound,
            r is Ok ==> exists|j: int|
                0 <= j < self@.len() && row_view(r->Ok_0) == #[trigger] self@[j]
                    && !self@[j].is_generated_proof && forall|k: int|
                    0 <= k < j ==> (#[trigger] self@[k]).is_generated_proof,
    {
        let mut i: usize = 0;
        while i < self.rows.len()
            invariant
                i <= self.rows@.len(),
                self@ == rows_view(self.rows@),
                forall|k: int| 0 <= k < i ==> (#[trigger] self@[k]).is_generated_proof,
            decreases self.rows@.len() - i,
        {
            if !self.rows[i].is_generated_proof {
                let c = copy_row(&self.rows[i]);
                assert(row_view(c) == self@[i as int]);
                return Ok(c);
            }
            i = i + 1;
        }
        Err(NodeError::NotFound)
    }
}

} // verus!
