use vstd::prelude::*;

verus! {

/// The slots the scan covers next, given the last slot it finished and the
/// latest slot the chain reports: from the slot after the cursor, never before
/// `initial_slot`, up to the slot before the latest one; `None` when that range
/// is empty.
pub open spec fn scan_range_spec(last_slot: i64, latest_slot: i64, initial_slot: i64) -> Option<(i64, i64)> {
    let start = if last_slot + 1 >= initial_slot { last_slot + 1 } else { initial_slot as int };
    if start <= latest_slot - 1 {
        Some((start as i64, (latest_slot - 1) as i64))
    } else {
        None
    }
}

/// The next slot range the scan driver classifies; once the range's records are
/// stored, its end becomes the new cursor.
pub fn next_scan_range(last_slot: i64, latest_slot: i64, initial_slot: i64) -> (r: Option<(i64, i64)>)
    ensures
        r == scan_range_spec(last_slot, latest_slot, initial_slot),
        r matches Some((s, e)) ==> last_slot < s && s <= e && e < latest_slot && initial_slot <= s,
{
    if latest_slot <= last_slot || latest_slot - 1 <= last_slot {
        return None;
    }
    let start = if last_slot + 1 >= initial_slot {
        last_slot + 1
    } else {
        initial_slot
    };
    if start > latest_slot - 1 {
        None
    } else {
        Some((start, latest_slot - 1))
    }
}

} // verus!
