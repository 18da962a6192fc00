use vstd::prelude::*;
use crate::error::NodeError;

verus! {

/// A processed block of the remote chain.
#[derive(Debug, Clone, Copy, PartialEq, Eq, Structural)]
pub struct BlockRow {
    pub id: i64,
    pub slot: i64,
}

/// The blocks recorded so far.
pub struct BlockRepo {
    pub rows: Vec<BlockRow>,
}

impl BlockRepo {
    /// The block with the greatest slot; of several, the first recorded.
    pub fn show(&mut self) -> (r: Result<BlockRow, NodeError>)
        ensures
            final(self).rows@ == old(self).rows@,
            old(self).rows@.len() == 0 ==> r == Err::<BlockRow, NodeError>(NodeError::NotFound),
            old(self).rows@.len() > 0 ==> r is Ok && exists|j: int|
                0 <= j < old(self).rows@.len() && r->Ok_0 == #[trigger] old(self).rows@[j]
                    && (forall|k: int| 0 <= k < old(self).rows@.len() ==> (#[trigger] old(self).rows@[k]).slot <= old(self).rows@[j].slot)
                    && (forall|k: int| 0 <= k < j ==> (#[trigger] old(self).rows@[k]).slot < old(self).rows@[j].slot),
    {
        if self.rows.len() == 0 {
            return Err(NodeError::NotFound);
        }
        let mut best: usize = 0;
        let mut i: usize = 1;
        while i < self.rows.len()
            invariant
                1 <= i <= self.rows@.len(),
                best < i,
                forall|k: int| 0 <= k < i ==> (#[trigger] self.rows@[k]).slot <= self.rows@[best as int].slot,
                forall|k: int| 0 <= k < best ==> (#[trigger] self.rows@[k]).slot < self.rows@[best as int].slot,
            decreases self.rows@.len() - i,
        {
            if self.rows[i].slot > self.rows[best].slot {
                best = i;
            }
            i = i + 1;
        }
        Ok(self.rows[best])
    }
}

} // verus!
