use vstd::prelude::*;
use crate::bytes::{le_value, u64_from_le_bytes};
use crate::error::NodeError;

verus! {

/// The account listing every checkpoint slot the chain has published.
#[derive(Debug)]
pub struct SlotsAccount {
    pub authority: [u8; 32],
    pub initialized: bool,
    pub slots: Vec<u64>,
}

/// The roots the chain published for one checkpoint slot.
#[derive(Debug, Clone, Copy)]
pub struct RootsInfo {
    pub slot: u64,
    pub merkle_tree_root: [u8; 32],
    pub world_state_root: [u8; 32],
}

/// The little-endian integer at `d[at..at + n]`.
pub open spec fn field(d: Seq<u8>, at: int, n: int) -> nat {
    le_value(d.subrange(at, at + n))
}

/// The number of slots a slots account lists.
pub open spec fn slot_count(d: Seq<u8>) -> nat {
    field(d, 41, 4)
}

/// The data is a well-formed slots account: discriminator, authority,
/// a 0 or 1 flag, a `u32` count and that many `u64` slots (trailing bytes allowed).
pub open spec fn is_slots_account(d: Seq<u8>) -> bool {
    &&& d.len() >= 8 + 32 + 1 + 4
    &&& d[40] <= 1
    &&& d.len() >= 8 + 32 + 1 + 4 + 8 * slot_count(d)
}

/// The `k`-th slot a slots account lists.
pub open spec fn listed_slot(d: Seq<u8>, k: int) -> nat {
    field(d, 45 + 8 * k, 8)
}

/// The data is a well-formed roots account: discriminator, slot, two roots.
pub open spec fn is_roots_account(d: Seq<u8>) -> bool {
    d.len() >= 8 + 8 + 32 + 32
}

fn copy32(d: &[u8], at: usize) -> (r: [u8; 32])
    requires
        at + 32 <= d@.len(),
    ensures
        r@ == d@.subrange(at as int, at + 32),
{
    let n = d.len();
    let mut out = [0u8; 32];
    let mut i: usize = 0;
    while i < 32
        invariant
            i <= 32,
            n == d@.len(),
            at + 32 <= d@.len(),
            out@.len() == 32,
            forall|j: int| 0 <= j < i ==> out@[j] == d@[at + j],
        decreases 32 - i,
    {
        out[i] = d[at + i];
        i = i + 1;
    }
    assert(out@ =~= d@.subrange(at as int, at + 32));
    out
}

/// Decodes the data of the account listing the published checkpoint slots.
pub fn decode_slots_account(data: &[u8]) -> (r: Result<SlotsAccount, NodeError>)
    ensures
        r is Ok <==> is_slots_account(data@),
        r is Err ==> r->Err_0 == NodeError::MalformedRemoteData,
        r is Ok ==> r->Ok_0.authority@ == data@.subrange(8, 40),
        r is Ok ==> r->Ok_0.initialized == (data@[40] == 1),
        r is Ok ==> r->Ok_0.slots@.len() == slot_count(data@),
        r is Ok ==> forall|k: int|
            0 <= k < slot_count(data@) ==> (#[trigger] r->Ok_0.slots@[k]) as nat == listed_slot(
                data@,
                k,
            ),
{
    if data.len() < 45 || data[40] > 1 {
        return Err(NodeError::MalformedRemoteData);
    }
    let authority = copy32(data, 8);
    let initialized = data[40] == 1;
    let count = u64_from_le_bytes(vstd::slice::slice_subrange(data, 41, 45));
    assert(count as nat == slot_count(data@));
    proof {
        crate::bytes::lemma_le_value_bound(data@.subrange(41, 45));
        reveal_with_fuel(crate::bytes::pow256, 5);
    }
    let available = (data.len() - 45) / 8;
    if count > available as u64 {
        return Err(NodeError::MalformedRemoteData);
    }
    let count = count as usize;
    let mut slots: Vec<u64> = Vec::new();
    let n = data.len();
    let mut k: usize = 0;
    while k < count
        invariant
            n == data@.len(),
            k <= count,
            count == slot_count(data@),
            45 + 8 * count <= data@.len(),
            slots@.len() == k,
            forall|j: int| 0 <= j < k ==> (#[trigger] slots@[j]) as nat == listed_slot(data@, j),
        decreases count - k,
    {
        let at = 45 + 8 * k;
        let v = u64_from_le_bytes(vstd::slice::slice_subrange(data, at, at + 8));
        slots.push(v);
        k = k + 1;
    }
    Ok(SlotsAccount { authority, initialized, slots })
}

/// Decodes the data of the account holding the roots of one checkpoint.
pub fn decode_roots_info(data: &[u8]) -> (r: Result<RootsInfo, NodeError>)
    ensures
        r is Ok <==> is_roots_account(data@),
        r is Err ==> r->Err_0 == NodeError::MalformedRemoteData,
        r is Ok ==> r->Ok_0.slot as nat == field(data@, 8, 8),
        r is Ok ==> r->Ok_0.merkle_tree_root@ == data@.subrange(16, 48),
        r is Ok ==> r->Ok_0.world_state_root@ == data@.subrange(48, 80),
{
    if data.len() < 80 {
        return Err(NodeError::MalformedRemoteData);
    }
    let slot = u64_from_le_bytes(vstd::slice::slice_subrange(data, 8, 16));
    let merkle_tree_root = copy32(data, 16);
    let world_state_root = copy32(data, 48);
    Ok(RootsInfo { slot, merkle_tree_root, world_state_root })
}

} // verus!
