use vstd::prelude::*;
use crate::bytes::{append_bytes, copy_bytes};
use crate::error::NodeError;
use crate::hashing::{double_hash, sha256d};

verus! {

/// The values of a sequence of byte vectors.
pub open spec fn hashes_view(v: Seq<Vec<u8>>) -> Seq<Seq<u8>> {
    v.map(|_i, h: Vec<u8>| h@)
}

/// The hash of a parent node over its two children.
pub open spec fn node_hash(left: Seq<u8>, right: Seq<u8>) -> Seq<u8> {
    sha256d(left + right)
}

/// The layer above `l`: adjacent nodes are paired left to right and hashed; an
/// odd node at the end is carried up unchanged.
pub open spec fn parent_layer(l: Seq<Seq<u8>>) -> Seq<Seq<u8>> {
    Seq::new(
        ((l.len() + 1) / 2) as nat,
        |j: int|
            if 2 * j + 1 < l.len() {
                node_hash(l[2 * j], l[2 * j + 1])
            } else {
                l[2 * j]
            },
    )
}

/// All layers of the tree over `l`, leaves first, up to the layer of one node.
pub open spec fn tower(l: Seq<Seq<u8>>) -> Seq<Seq<Seq<u8>>>
    decreases l.len(),
{
    if l.len() <= 1 {
        seq![l]
    } else {
        seq![l] + tower(parent_layer(l))
    }
}

/// The root of the tree over `l` (meaningful for a non-empty `l`).
pub open spec fn root_of(l: Seq<Seq<u8>>) -> Seq<u8>
    decreases l.len(),
{
    if l.len() == 0 {
        Seq::empty()
    } else if l.len() == 1 {
        l[0]
    } else {
        root_of(parent_layer(l))
    }
}

/// The position paired with `i` in its layer.
pub open spec fn sibling(i: nat) -> nat {
    if i % 2 == 0 {
        i + 1
    } else {
        (i - 1) as nat
    }
}

/// The inclusion proof of leaf `i`: for each layer, leaf to root, the node
/// beside the path, or nothing where the path node is carried up unpaired.
pub open spec fn proof_of(l: Seq<Seq<u8>>, i: nat) -> Seq<Seq<u8>>
    decreases l.len(),
{
    if l.len() <= 1 {
        Seq::empty()
    } else {
        let here = if sibling(i) < l.len() {
            seq![l[sibling(i) as int]]
        } else {
            Seq::empty()
        };
        here + proof_of(parent_layer(l), i / 2)
    }
}

/// Recombines a leaf at index `i` of a tree of `n` leaves with its proof.
/// `None` where the proof has too few or too many hashes.
pub open spec fn fold_proof(leaf: Seq<u8>, i: nat, n: nat, proof: Seq<Seq<u8>>) -> Option<Seq<u8>>
    decreases n,
{
    if n <= 1 {
        if proof.len() == 0 {
            Some(leaf)
        } else {
            None
        }
    } else if i % 2 == 1 || i + 1 < n {
        if proof.len() == 0 {
            None
        } else {
            let up = if i % 2 == 0 {
                node_hash(leaf, proof[0])
            } else {
                node_hash(proof[0], leaf)
            };
            fold_proof(up, i / 2, (n + 1) / 2, proof.drop_first())
        }
    } else {
        fold_proof(leaf, i / 2, (n + 1) / 2, proof)
    }
}

pub proof fn lemma_tower_shape(l: Seq<Seq<u8>>)
    ensures
        tower(l).len() >= 1,
        tower(l)[0] == l,
        tower(l).last().len() <= 1,
        l.len() >= 1 ==> tower(l).last().len() == 1,
        l.len() >= 1 ==> tower(l).last()[0] == root_of(l),
        forall|k: int|
            0 <= k < tower(l).len() - 1 ==> #[trigger] tower(l)[k].len() > 1 && tower(l)[k + 1]
                == parent_layer(tower(l)[k]),
    decreases l.len(),
{
    if l.len() > 1 {
        let p = parent_layer(l);
        lemma_tower_shape(p);
        let t = tower(l);
        assert(t == seq![l] + tower(p));
        assert forall|k: int| 0 <= k < t.len() - 1 implies #[trigger] t[k].len() > 1 && t[k + 1]
            == parent_layer(t[k]) by {
            if k > 0 {
                assert(t[k] == tower(p)[k - 1]);
                assert(t[k + 1] == tower(p)[k]);
            }
        }
    }
}

/// Recombining leaf `i` with its proof gives back the root of the tree.
pub proof fn lemma_proof_round_trip(l: Seq<Seq<u8>>, i: nat)
    requires
        i < l.len(),
    ensures
        fold_proof(l[i as int], i, l.len(), proof_of(l, i)) == Some(root_of(l)),
    decreases l.len(),
{
    if l.len() > 1 {
        let p = parent_layer(l);
        let n = l.len();
        let rest = proof_of(p, i / 2);
        lemma_proof_round_trip(p, i / 2);
        if i % 2 == 1 || i + 1 < n {
            let s = sibling(i);
            assert(proof_of(l, i) == seq![l[s as int]] + rest);
            assert((seq![l[s as int]] + rest).drop_first() =~= rest);
            if i % 2 == 0 {
                assert(p[(i / 2) as int] == node_hash(l[i as int], l[s as int]));
            } else {
                assert(p[(i / 2) as int] == node_hash(l[s as int], l[i as int]));
            }
        } else {
            assert(proof_of(l, i) =~= rest);
            assert(p[(i / 2) as int] == l[i as int]);
        }
    }
}

pub proof fn lemma_hashes_view_push(s: Seq<Vec<u8>>, x: Vec<u8>)
    ensures
        hashes_view(s.push(x)) == hashes_view(s).push(x@),
{
    assert(hashes_view(s.push(x)) =~= hashes_view(s).push(x@));
}

/// A copy of a sequence of byte vectors.
pub fn copy_hashes(v: &Vec<Vec<u8>>) -> (r: Vec<Vec<u8>>)
    ensures
        hashes_view(r@) == hashes_view(v@),
{
    let mut r: Vec<Vec<u8>> = Vec::new();
    let mut i: usize = 0;
    while i < v.len()
        invariant
            i <= v@.len(),
            hashes_view(r@) == hashes_view(v@).subrange(0, i as int),
        decreases v@.len() - i,
    {
        let ghost old_r = r@;
        r.push(copy_bytes(&v[i]));
        proof {
            lemma_hashes_view_push(old_r, r@.last());
        }
        assert(hashes_view(r@) =~= hashes_view(v@).subrange(0, i + 1));
        i = i + 1;
    }
    assert(hashes_view(v@).subrange(0, v@.len() as int) =~= hashes_view(v@));
    r
}

/// Computes the layer above `layer`.
fn build_parent(layer: &Vec<Vec<u8>>) -> (r: Vec<Vec<u8>>)
    ensures
        hashes_view(r@) == parent_layer(hashes_view(layer@)),
{
    let ghost l = hashes_view(layer@);
    let n = layer.len();
    let half = n / 2 + n % 2;
    let mut out: Vec<Vec<u8>> = Vec::new();
    let mut j: usize = 0;
    while j < half
        invariant
            n == layer@.len(),
            half == (n + 1) / 2,
            j <= half,
            l == hashes_view(layer@),
            hashes_view(out@) == parent_layer(l).subrange(0, j as int),
        decreases half - j,
    {
        if 2 * j + 1 < n {
            let mut m = copy_bytes(&layer[2 * j]);
            append_bytes(&mut m, layer[2 * j + 1].as_slice());
            let h = double_hash(m.as_slice());
            let ghost old_out = out@;
            out.push(h);
            proof {
                lemma_hashes_view_push(old_out, h);
            }
        } else {
            let c = copy_bytes(&layer[2 * j]);
            let ghost old_out = out@;
            out.push(c);
            proof {
                lemma_hashes_view_push(old_out, c);
            }
        }
        assert(hashes_view(out@) =~= parent_layer(l).subrange(0, j + 1));
        j = j + 1;
    }
    assert(parent_layer(l).subrange(0, half as int) =~= parent_layer(l));
    out
}

pub open spec fn layers_view(v: Seq<Vec<Vec<u8>>>) -> Seq<Seq<Seq<u8>>> {
    v.map(|_i, l: Vec<Vec<u8>>| hashes_view(l@))
}

/// A Merkle tree over an ordered sequence of leaf hashes, grown by appending
/// leaves and rebuilt on demand.
pub struct MerkleMirror {
    leaves: Vec<Vec<u8>>,
    layers: Vec<Vec<Vec<u8>>>,
}

impl View for MerkleMirror {
    type V = Seq<Seq<u8>>;

    /// The leaf hashes, in the order they were added.
    closed spec fn view(&self) -> Seq<Seq<u8>> {
        hashes_view(self.leaves@)
    }
}

impl MerkleMirror {
    /// The layers are current: they were rebuilt after the last leaves were added.
    pub closed spec fn is_built(&self) -> bool {
        self.layers@.len() > 0
    }

    pub closed spec fn wf(&self) -> bool {
        self.layers@.len() > 0 ==> self@.len() > 0 && layers_view(self.layers@) == tower(self@)
    }

    pub fn new() -> (r: Self)
        ensures
            r.wf(),
            r@ == Seq::<Seq<u8>>::empty(),
            !r.is_built(),
    {
        let r = MerkleMirror { leaves: Vec::new(), layers: Vec::new() };
        assert(r@ =~= Seq::<Seq<u8>>::empty());
        r
    }

    pub fn leaf_count(&self) -> (r: usize)
        ensures
            r == self@.len(),
    {
        self.leaves.len()
    }

    /// Appends leaf hashes in order; the root is not recomputed until `rebuild`.
    pub fn add_leaves(&mut self, hashes: Vec<Vec<u8>>)
        requires
            old(self).wf(),
        ensures
            final(self).wf(),
            final(self)@ == old(self)@ + hashes_view(hashes@),
            hashes@.len() == 0 ==> final(self).is_built() == old(self).is_built(),
            hashes@.len() > 0 ==> !final(self).is_built(),
    {
        if hashes.len() == 0 {
            assert(hashes_view(hashes@) =~= Seq::<Seq<u8>>::empty());
            assert(self@ =~= self@ + hashes_view(hashes@));
            return;
        }
        let ghost before = self@;
        let mut i: usize = 0;
        while i < hashes.len()
            invariant
                i <= hashes@.len(),
                self@ == before + hashes_view(hashes@).subrange(0, i as int),
            decreases hashes@.len() - i,
        {
            let c = copy_bytes(&hashes[i]);
            let ghost old_leaves = self.leaves@;
            self.leaves.push(c);
            proof {
                lemma_hashes_view_push(old_leaves, c);
            }
            assert(hashes_view(self.leaves@) =~= before + hashes_view(hashes@).subrange(0, i + 1));
            i = i + 1;
        }
        assert(hashes_view(hashes@).subrange(0, hashes@.len() as int) =~= hashes_view(hashes@));
        self.layers = Vec::new();
    }

    /// Recomputes every layer from the leaves and returns the root.
    pub fn rebuild(&mut self) -> (r: Result<Vec<u8>, NodeError>)
        requires
            old(self).wf(),
        ensures
            final(self).wf(),
            final(self)@ == old(self)@,
            old(self)@.len() == 0 ==> r == Err::<Vec<u8>, NodeError>(NodeError::EmptyTree),
            old(self)@.len() > 0 ==> r is Ok,
            old(self)@.len() > 0 ==> r->Ok_0@ == root_of(old(self)@),
            old(self)@.len() > 0 ==> final(self).is_built(),
    {
        if self.leaves.len() == 0 {
            return Err(NodeError::EmptyTree);
        }
        let ghost l = self@;
        proof {
            lemma_tower_shape(l);
        }
        let mut current = copy_hashes(&self.leaves);
        let mut layers: Vec<Vec<Vec<u8>>> = Vec::new();
        while current.len() > 1
            invariant
                l == self@,
                l.len() > 0,
                hashes_view(current@).len() > 0,
                layers_view(layers@) + tower(hashes_view(current@)) == tower(l),
            decreases current@.len(),
        {
            let next = build_parent(&current);
            let ghost c = hashes_view(current@);
            assert(tower(c) == seq![c] + tower(parent_layer(c)));
            layers.push(current);
            assert(layers_view(layers@) + tower(hashes_view(next@)) =~= tower(l));
            current = next;
        }
        let ghost c = hashes_view(current@);
        let root = copy_bytes(&current[0]);
        layers.push(current);
        assert(layers_view(layers@) =~= tower(l));
        proof {
            lemma_tower_shape(c);
            assert(tower(c).last()[0] == root_of(c));
            assert(tower(l).last() == c);
        }
        self.layers = layers;
        Ok(root)
    }

    /// The inclusion proof of leaf `i`, leaf to root.
    pub fn proof_for_index(&self, i: usize) -> (r: Result<Vec<Vec<u8>>, NodeError>)
        requires
            self.wf(),
        ensures
            self@.len() == 0 ==> r == Err::<Vec<Vec<u8>>, NodeError>(NodeError::EmptyTree),
            self@.len() > 0 && i >= self@.len() ==> r == Err::<Vec<Vec<u8>>, NodeError>(
                NodeError::LeafOutOfRange,
            ),
            i < self@.len() && !self.is_built() ==> r == Err::<Vec<Vec<u8>>, NodeError>(
                NodeError::TreeNotRebuilt,
            ),
            i < self@.len() && self.is_built() ==> r is Ok && hashes_view(r->Ok_0@) == proof_of(
                self@,
                i as nat,
            ),
    {
        if self.leaves.len() == 0 {
            return Err(NodeError::EmptyTree);
        }
        if i >= self.leaves.len() {
            return Err(NodeError::LeafOutOfRange);
        }
        if self.layers.len() == 0 {
            return Err(NodeError::TreeNotRebuilt);
        }
        let ghost l = self@;
        let ghost t = tower(l);
        proof {
            lemma_tower_shape(l);
        }
        let mut out: Vec<Vec<u8>> = Vec::new();
        let mut pos: usize = i;
        let mut k: usize = 0;
        while k < self.layers.len() - 1
            invariant
                self.wf(),
                l == self@,
                t == tower(l),
                t.len() == self.layers@.len(),
                layers_view(self.layers@) == t,
                k < t.len(),
                pos < t[k as int].len(),
                hashes_view(out@) + proof_of(t[k as int], pos as nat) == proof_of(l, i as nat),
                forall|q: int|
                    0 <= q < t.len() - 1 ==> #[trigger] t[q].len() > 1 && t[q + 1] == parent_layer(
                        t[q],
                    ),
            decreases self.layers@.len() - k,
        {
            let layer = &self.layers[k];
            let ghost lk = t[k as int];
            assert(hashes_view(layer@) == lk);
            let sib = if pos % 2 == 0 {
                pos + 1
            } else {
                pos - 1
            };
            let ghost before = hashes_view(out@);
            let ghost before_v = out@;
            if sib < layer.len() {
                let c = copy_bytes(&layer[sib]);
                out.push(c);
                proof {
                    lemma_hashes_view_push(before_v, c);
                }
                assert(hashes_view(out@) =~= before + seq![lk[sib as int]]);
            }
            assert(proof_of(lk, pos as nat) == (if sibling(pos as nat) < lk.len() {
                seq![lk[sibling(pos as nat) as int]]
            } else {
                Seq::empty()
            }) + proof_of(parent_layer(lk), (pos / 2) as nat));
            assert(hashes_view(out@) + proof_of(t[k + 1], (pos / 2) as nat) =~= proof_of(l, i as nat));
            pos = pos / 2;
            k = k + 1;
        }
        assert(hashes_view(out@) =~= proof_of(l, i as nat));
        Ok(out)
    }
}

/// Recombines `leaf`, at `index` in a tree of `leaf_count` leaves, with its
/// inclusion proof. `None` where the proof holds too few or too many hashes.
pub fn root_from_proof(leaf: &Vec<u8>, index: usize, leaf_count: usize, proof: &Vec<Vec<u8>>) -> (r:
    Option<Vec<u8>>)
    ensures
        r is Some <==> fold_proof(leaf@, index as nat, leaf_count as nat, hashes_view(proof@)) is Some,
        r is Some ==> r->Some_0@ == fold_proof(
            leaf@,
            index as nat,
            leaf_count as nat,
            hashes_view(proof@),
        )->Some_0,
{
    let ghost goal = fold_proof(leaf@, index as nat, leaf_count as nat, hashes_view(proof@));
    let mut acc = copy_bytes(leaf);
    let mut i: usize = index;
    let mut n: usize = leaf_count;
    let mut p: usize = 0;
    assert(hashes_view(proof@).subrange(0, proof@.len() as int) =~= hashes_view(proof@));
    while n > 1
        invariant
            p <= proof@.len(),
            goal == fold_proof(leaf@, index as nat, leaf_count as nat, hashes_view(proof@)),
            fold_proof(acc@, i as nat, n as nat, hashes_view(proof@).subrange(p as int, proof@.len() as int))
                == goal,
        decreases n,
    {
        let ghost rest = hashes_view(proof@).subrange(p as int, proof@.len() as int);
        if i % 2 == 1 || i < n - 1 {
            if p >= proof.len() {
                assert(rest.len() == 0);
                return None;
            }
            let mut m: Vec<u8>;
            if i % 2 == 0 {
                m = copy_bytes(&acc);
                append_bytes(&mut m, proof[p].as_slice());
            } else {
                m = copy_bytes(&proof[p]);
                append_bytes(&mut m, acc.as_slice());
            }
            assert(rest[0] == proof@[p as int]@);
            assert(rest.drop_first() =~= hashes_view(proof@).subrange(p + 1, proof@.len() as int));
            acc = double_hash(m.as_slice());
            p = p + 1;
        }
        i = i / 2;
        n = n / 2 + n % 2;
    }
    if p < proof.len() {
        None
    } else {
        assert(hashes_view(proof@).subrange(p as int, proof@.len() as int).len() == 0);
        Some(acc)
    }
}

/// Rebuilding from the same leaf sequence gives the same root and the same
/// inclusion proof for every index.
pub proof fn lemma_rebuild_deterministic(a: Seq<Seq<u8>>, b: Seq<Seq<u8>>)
    requires
        a == b,
    ensures
        root_of(a) == root_of(b),
        forall|i: nat| #[trigger] proof_of(a, i) == proof_of(b, i),
{
}

/// Growing a tree batch by batch yields the same root as adding all its
/// leaves at once: only the resulting leaf sequence matters.
pub proof fn lemma_batches_same_root(first: Seq<Seq<u8>>, second: Seq<Seq<u8>>, all: Seq<Seq<u8>>)
    requires
        all == first + second,
    ensures
        root_of(first + second) == root_of(all),
        forall|i: nat| #[trigger] proof_of(first + second, i) == proof_of(all, i),
{
}

/// Compares the mirror's rebuilt root with the root the chain published for
/// the same checkpoint.
pub fn verify_root(mirror: &mut MerkleMirror, remote_root: &Vec<u8>) -> (r: Result<Vec<u8>, NodeError>)
    requires
        old(mirror).wf(),
    ensures
        final(mirror).wf(),
        final(mirror)@ == old(mirror)@,
        old(mirror)@.len() == 0 ==> r == Err::<Vec<u8>, NodeError>(NodeError::EmptyTree),
        old(mirror)@.len() > 0 ==> final(mirror).is_built(),
        old(mirror)@.len() > 0 && root_of(old(mirror)@) == remote_root@ ==> r is Ok
            && r->Ok_0@ == remote_root@,
        old(mirror)@.len() > 0 && root_of(old(mirror)@) != remote_root@ ==> r
            == Err::<Vec<u8>, NodeError>(NodeError::Divergence),
{
    let root = mirror.rebuild()?;
    if crate::bytes::bytes_eq(root.as_slice(), remote_root.as_slice()) {
        Ok(root)
    } else {
        Err(NodeError::Divergence)
    }
}

} // verus!
