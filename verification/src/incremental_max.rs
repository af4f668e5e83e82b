//! A running maximum over a fixed set of slots, kept in a binary tree so
//! that both updating a slot and reading the maximum stay cheap.
//!
//! The limiter stores sample magnitudes here. Magnitudes are non-negative
//! and finite, and for such values the order of their IEEE-754 bit
//! patterns, read as unsigned integers, is the order of the values
//! themselves; the tree therefore holds those bit patterns as `u32`.
use vstd::prelude::*;

verus! {

/// `n` is a power of two.
pub open spec fn is_pow2(n: nat) -> bool
    decreases n,
{
    if n <= 1 {
        n == 1
    } else {
        n % 2 == 0 && is_pow2(n / 2)
    }
}

/// The larger of two values.
pub open spec fn max_u32(a: u32, b: u32) -> u32 {
    if a >= b {
        a
    } else {
        b
    }
}

/// The maximum of a sequence, `0` for the empty sequence.
pub open spec fn seq_max(s: Seq<u32>) -> u32
    decreases s.len(),
{
    if s.len() == 0 {
        0
    } else {
        max_u32(seq_max(s.drop_last()), s.last())
    }
}

/// The number of settable slots for a requested length: the length is
/// rounded up to an even number, except that a single slot stays single.
pub open spec fn slot_count(length: nat) -> nat {
    if length == 1 {
        1
    } else {
        length + length % 2
    }
}

/// `a` is `j` or one of its ancestors in the implicit binary tree where
/// node `j` has the children `2j` and `2j + 1`.
pub open spec fn is_ancestor(a: nat, j: nat) -> bool
    decreases j,
{
    a == j || (j > 1 && is_ancestor(a, j / 2))
}

/// The value of tree node `j` when the leaves start at `offset`: a leaf
/// holds its slot (or `0` past the last slot), an inner node the larger
/// of its children.
pub open spec fn tree_val(leaves: Seq<u32>, offset: nat, j: nat) -> u32
    decreases (if j < offset {
        offset - j
    } else {
        0
    }),
{
    if j == 0 {
        0
    } else if j >= offset {
        if j - offset < leaves.len() {
            leaves[j - offset]
        } else {
            0
        }
    } else {
        max_u32(tree_val(leaves, offset, 2 * j), tree_val(leaves, offset, 2 * j + 1))
    }
}

/// The segment tree behind [`IncrementalMax`].
#[derive(Debug)]
struct SlotTree {
    // Index 0 is unused. The leaves start at `leaf_offset`; the number
    // of leaves is the length rounded up to an even number.
    buffer: Vec<u32>,
    length: usize,
    leaf_offset: usize,
}

impl View for SlotTree {
    type V = Seq<u32>;

    /// The value of every settable slot.
    closed spec fn view(&self) -> Seq<u32> {
        Seq::new(
            slot_count(self.length as nat),
            |p: int| self.buffer@[self.leaf_offset + p],
        )
    }
}

impl SlotTree {
    /// The requested length.
    pub closed spec fn spec_len(&self) -> nat {
        self.length as nat
    }

    /// Well-formedness: the buffer holds the leaves and every inner node
    /// holds the maximum of its subtree.
    pub closed spec fn wf(&self) -> bool {
        &&& is_pow2(self.leaf_offset as nat)
        &&& slot_count(self.length as nat) <= self.leaf_offset
        &&& (self.leaf_offset == 1 || self.leaf_offset < 2 * self.length)
        &&& self.buffer@.len() <= usize::MAX
        &&& self.buffer@.len() == self.leaf_offset + self.length + self.length % 2
        &&& forall|j: int|
            1 <= j < self.leaf_offset ==> #[trigger] self.buffer@[j] == tree_val(
                self@,
                self.leaf_offset as nat,
                j as nat,
            )
    }

    /// Create a new tree with every slot set to `0`.
    fn new(length: usize) -> (m: Self)
        requires
            length <= usize::MAX / 4,
        ensures
            m.wf(),
            m.spec_len() == length,
            m@ == Seq::new(slot_count(length as nat), |p: int| 0u32),
    {
        let mut leaf_offset: usize = 1;
        while leaf_offset < length
            invariant
                is_pow2(leaf_offset as nat),
                1 <= leaf_offset,
                leaf_offset == 1 || leaf_offset < 2 * length,
                length <= usize::MAX / 4,
            decreases 2 * length - leaf_offset,
        {
            leaf_offset = leaf_offset * 2;
        }
        let size: usize = leaf_offset + length + length % 2;
        let mut buffer: Vec<u32> = Vec::new();
        while buffer.len() < size
            invariant
                buffer@.len() <= size,
                forall|k: int| 0 <= k < buffer@.len() ==> buffer@[k] == 0,
            decreases size - buffer@.len(),
        {
            buffer.push(0);
        }
        let m = SlotTree { buffer, length, leaf_offset };
        proof {
            if length >= 2 {
                lemma_pow2_even(leaf_offset as nat);
            }
            assert(m@ =~= Seq::new(slot_count(length as nat), |p: int| 0u32));
            assert forall|j: int| 1 <= j < m.leaf_offset implies #[trigger] m.buffer@[j]
                == tree_val(m@, m.leaf_offset as nat, j as nat) by {
                lemma_tree_val_zero_or_leaf(m@, m.leaf_offset as nat, j as nat);
            }
        }
        m
    }

    /// The requested length.
    fn len(&self) -> (n: usize)
        ensures
            n == self.spec_len(),
    {
        self.length
    }

    /// Get the maximum of the values in the buffer.
    fn max(&self) -> (r: u32)
        requires
            self.wf(),
            self.spec_len() >= 1,
        ensures
            r == seq_max(self@),
    {
        proof {
            self.lemma_root_is_max();
        }
        self.buffer[1]
    }

    /// Set a value at the given slot.
    fn set(&mut self, index: usize, value: u32)
        requires
            old(self).wf(),
            index < slot_count(old(self).spec_len()),
        ensures
            final(self).wf(),
            final(self).spec_len() == old(self).spec_len(),
            final(self)@ == old(self)@.update(index as int, value),
    {
        let ghost leaves = old(self)@.update(index as int, value);
        let ghost off = self.leaf_offset as nat;
        proof {
            if self.length >= 2 {
                lemma_pow2_even(off);
            }
        }
        let mut i: usize = self.leaf_offset + index;
        self.buffer.set(i, value);
        proof {
            assert(self@ =~= leaves);
            assert forall|j: int|
                1 <= j < off && !(j != i && is_ancestor(j as nat, i as nat)) implies #[trigger] self.buffer@[j]
                == tree_val(leaves, off, j as nat) by {
                assert(old(self).buffer@[j] == self.buffer@[j]);
                lemma_tree_val_frame(old(self)@, index as nat, value, off, (off + index) as nat, j as nat);
            }
        }
        while i > 1
            invariant
                self.leaf_offset == off,
                self.length == old(self).length,
                self.buffer@.len() == old(self).buffer@.len(),
                is_pow2(off),
                slot_count(self.length as nat) <= off,
                off == 1 || off < 2 * self.length,
                self.buffer@.len() == off + self.length + self.length % 2,
                self.length >= 2 ==> off % 2 == 0,
                1 <= i < self.buffer@.len(),
                i >= off ==> i - off < slot_count(self.length as nat),
                self@ == leaves,
                forall|j: int|
                    1 <= j < off && !(j != i && is_ancestor(j as nat, i as nat)) ==> #[trigger] self.buffer@[j]
                        == tree_val(leaves, off, j as nat),
            decreases i,
        {
            let sibling: usize = if i % 2 == 0 {
                i + 1
            } else {
                i - 1
            };
            let a = self.buffer[i];
            let b = self.buffer[sibling];
            let m = if a >= b {
                a
            } else {
                b
            };
            let ghost old_i = i as nat;
            proof {
                assert(self.length >= 2);
                assert(i < 2 * off);
                if i >= off {
                    assert(self@[i - off] == self.buffer@[off + (i - off)]);
                    assert(sibling - off < slot_count(self.length as nat));
                    assert(self@[sibling - off] == self.buffer@[off + (sibling - off)]);
                } else {
                    assert(sibling < off);
                    lemma_not_ancestor_of_sibling(sibling as nat, old_i);
                }
                assert(self.buffer@[i as int] == tree_val(leaves, off, old_i));
                assert(self.buffer@[sibling as int] == tree_val(leaves, off, sibling as nat));
                assert(tree_val(leaves, off, old_i / 2) == max_u32(
                    tree_val(leaves, off, 2 * (old_i / 2)),
                    tree_val(leaves, off, 2 * (old_i / 2) + 1),
                ));
            }
            i = i / 2;
            self.buffer.set(i, m);
            proof {
                assert(self@ =~= leaves);
                assert forall|j: int|
                    1 <= j < off && !(j != i && is_ancestor(j as nat, i as nat)) implies #[trigger] self.buffer@[j]
                    == tree_val(leaves, off, j as nat) by {
                    if j != i {
                        assert(!(j != old_i && is_ancestor(j as nat, old_i)));
                    }
                }
            }
        }
    }

    /// Clear the buffer, resetting every slot to `0`.
    fn clear(&mut self)
        requires
            old(self).wf(),
        ensures
            final(self).wf(),
            final(self).spec_len() == old(self).spec_len(),
            final(self)@ == Seq::new(slot_count(old(self).spec_len()), |p: int| 0u32),
    {
        let n = self.buffer.len();
        let mut k: usize = 0;
        while k < n
            invariant
                self.buffer@.len() == n,
                self.leaf_offset == old(self).leaf_offset,
                self.length == old(self).length,
                k <= n,
                forall|q: int| 0 <= q < k ==> self.buffer@[q] == 0,
            decreases n - k,
        {
            self.buffer.set(k, 0);
            k = k + 1;
        }
        proof {
            assert(self@ =~= Seq::new(slot_count(old(self).spec_len()), |p: int| 0u32));
            assert forall|j: int| 1 <= j < self.leaf_offset implies #[trigger] self.buffer@[j]
                == tree_val(self@, self.leaf_offset as nat, j as nat) by {
                lemma_tree_val_zero_or_leaf(self@, self.leaf_offset as nat, j as nat);
            }
        }
    }

    /// The root of a well-formed tree holds the maximum of all slots.
    proof fn lemma_root_is_max(&self)
        requires
            self.wf(),
            self.spec_len() >= 1,
        ensures
            self.buffer@[1] == seq_max(self@),
    {
        let off = self.leaf_offset as nat;
        let leaves = self@;
        let root = tree_val(leaves, off, 1);
        if off > 1 {
            assert(self.buffer@[1] == root);
        }
        assert forall|p: int| 0 <= p < leaves.len() implies root >= leaves[p] by {
            lemma_root_dominates(leaves, off, (off + p) as nat);
        }
        lemma_tree_val_zero_or_leaf(leaves, off, 1);
        lemma_seq_max_is_bound(leaves);
        if root != 0 {
            let p = choose|p: int| 0 <= p < leaves.len() && leaves[p] == root;
        }
    }
}

/// The maximum of a fixed number of values, updated one slot at a time.
#[derive(Debug)]
pub struct IncrementalMax {
    tree: SlotTree,
}

impl View for IncrementalMax {
    type V = Seq<u32>;

    /// The value of every settable slot.
    closed spec fn view(&self) -> Seq<u32> {
        self.tree@
    }
}

impl IncrementalMax {
    /// Every inner node of the tree holds the maximum of its subtree
    /// (a tree of length zero, which has no slots, is left unconstrained).
    #[verifier::type_invariant]
    closed spec fn tree_is_well_formed(self) -> bool {
        self.tree.spec_len() == 0 || self.tree.wf()
    }

    /// A tree with no slots, to stand in while the real one is updated.
    fn placeholder() -> (t: SlotTree)
        ensures
            t.spec_len() == 0,
    {
        SlotTree { buffer: Vec::new(), length: 0, leaf_offset: 1 }
    }

    /// The requested length.
    pub closed spec fn spec_len(&self) -> nat {
        self.tree.spec_len()
    }

    /// Create a new [`IncrementalMax`] with every slot set to `0`.
    pub fn new(length: usize) -> (m: Self)
        requires
            length <= usize::MAX / 4,
        ensures
            m.spec_len() == length,
            m@ == Seq::new(slot_count(length as nat), |p: int| 0u32),
    {
        IncrementalMax { tree: SlotTree::new(length) }
    }

    /// The requested length.
    pub fn len(&self) -> (n: usize)
        ensures
            n == self.spec_len(),
    {
        self.tree.len()
    }

    /// Get the maximum of the values in the buffer.
    pub fn max(&self) -> (r: u32)
        requires
            self.spec_len() >= 1,
        ensures
            r == seq_max(self@),
    {
        proof {
            use_type_invariant(self);
        }
        self.tree.max()
    }

    /// Set a value at the given slot.
    pub fn set(&mut self, index: usize, value: u32)
        requires
            index < slot_count(old(self).spec_len()),
        ensures
            final(self).spec_len() == old(self).spec_len(),
            final(self)@ == old(self)@.update(index as int, value),
    {
        proof {
            use_type_invariant(&*self);
        }
        let mut tree = Self::placeholder();
        core::mem::swap(&mut self.tree, &mut tree);
        tree.set(index, value);
        core::mem::swap(&mut self.tree, &mut tree);
    }

    /// Clear the buffer, resetting every slot to `0`.
    pub fn clear(&mut self)
        ensures
            final(self).spec_len() == old(self).spec_len(),
            final(self)@ == Seq::new(slot_count(old(self).spec_len()), |p: int| 0u32),
    {
        proof {
            use_type_invariant(&*self);
        }
        if self.tree.len() == 0 {
            return;
        }
        let mut tree = Self::placeholder();
        core::mem::swap(&mut self.tree, &mut tree);
        tree.clear();
        core::mem::swap(&mut self.tree, &mut tree);
    }
}

/// The slots after a run of operations, each `Some((i, v))` setting slot
/// `i` to `v` and each `None` clearing every slot, as `set` and `clear`
/// state them.
pub open spec fn slots_after(slots: Seq<u32>, ops: Seq<Option<(nat, u32)>>) -> Seq<u32>
    decreases ops.len(),
{
    if ops.len() == 0 {
        slots
    } else {
        let before = slots_after(slots, ops.drop_last());
        match ops.last() {
            Some((i, v)) => before.update(i as int, v),
            None => Seq::new(before.len(), |p: int| 0u32),
        }
    }
}

/// The value last set at slot `i` since the last clear, or `0`.
pub open spec fn last_written(ops: Seq<Option<(nat, u32)>>, i: nat) -> u32
    decreases ops.len(),
{
    if ops.len() == 0 {
        0
    } else {
        match ops.last() {
            Some((j, v)) => if j == i {
                v
            } else {
                last_written(ops.drop_last(), i)
            },
            None => 0,
        }
    }
}

/// Starting from a fresh [`IncrementalMax`] with `n` slots, after any run
/// of `set` and `clear` each slot holds the value last set there since
/// the last clear (or `0`), so `max` gives the largest of those.
pub proof fn lemma_running_max(n: nat, ops: Seq<Option<(nat, u32)>>)
    requires
        forall|k: int| 0 <= k < ops.len() ==> (#[trigger] ops[k] matches Some((i, v)) ==> i < n),
    ensures
        slots_after(Seq::new(n, |p: int| 0u32), ops) == Seq::new(n, |p: int| last_written(ops, p as nat)),
        seq_max(slots_after(Seq::new(n, |p: int| 0u32), ops)) == seq_max(
            Seq::new(n, |p: int| last_written(ops, p as nat)),
        ),
    decreases ops.len(),
{
    if ops.len() > 0 {
        let rest = ops.drop_last();
        assert forall|k: int| 0 <= k < rest.len() implies (#[trigger] rest[k] matches Some((i, v)) ==> i < n) by {
            assert(rest[k] == ops[k]);
        }
        lemma_running_max(n, rest);
        assert(ops.last() == ops[ops.len() - 1]);
        assert(slots_after(Seq::new(n, |p: int| 0u32), ops) =~= Seq::new(
            n,
            |p: int| last_written(ops, p as nat),
        ));
    } else {
        assert(Seq::new(n, |p: int| 0u32) =~= Seq::new(n, |p: int| last_written(ops, p as nat)));
    }
}

/// A power of two other than one is even.
proof fn lemma_pow2_even(n: nat)
    requires
        is_pow2(n),
        n >= 2,
    ensures
        n % 2 == 0,
{
}

/// Every node is `0` or equal to the value of some slot.
pub proof fn lemma_tree_val_zero_or_leaf(leaves: Seq<u32>, offset: nat, j: nat)
    ensures
        tree_val(leaves, offset, j) == 0 || exists|p: int|
            0 <= p < leaves.len() && leaves[p] == tree_val(leaves, offset, j),
    decreases (if j < offset {
        offset - j
    } else {
        0
    }),
{
    if j == 0 || j >= offset {
        if j > 0 && j >= offset && j - offset < leaves.len() {
            let p = j - offset;
            assert(leaves[p as int] == tree_val(leaves, offset, j));
        }
    } else {
        lemma_tree_val_zero_or_leaf(leaves, offset, 2 * j);
        lemma_tree_val_zero_or_leaf(leaves, offset, 2 * j + 1);
    }
}

/// The root is at least the value of every node below it.
pub proof fn lemma_root_dominates(leaves: Seq<u32>, offset: nat, j: nat)
    requires
        1 <= j < 2 * offset,
    ensures
        tree_val(leaves, offset, 1) >= tree_val(leaves, offset, j),
    decreases j,
{
    if j > 1 {
        let p = j / 2;
        assert(1 <= p < offset);
        assert(tree_val(leaves, offset, p) >= tree_val(leaves, offset, j));
        lemma_root_dominates(leaves, offset, p);
    }
}

/// `seq_max` bounds every element and is `0` or one of them.
pub proof fn lemma_seq_max_is_bound(s: Seq<u32>)
    ensures
        forall|p: int| 0 <= p < s.len() ==> seq_max(s) >= s[p],
        seq_max(s) == 0 || exists|p: int| 0 <= p < s.len() && s[p] == seq_max(s),
    decreases s.len(),
{
    if s.len() > 0 {
        let t = s.drop_last();
        lemma_seq_max_is_bound(t);
        assert forall|p: int| 0 <= p < s.len() implies seq_max(s) >= s[p] by {
            if p < s.len() - 1 {
                assert(s[p] == t[p]);
            }
        }
        if seq_max(s) != 0 {
            if seq_max(s) == s.last() {
                assert(s[s.len() - 1] == seq_max(s));
            } else {
                let p = choose|p: int| 0 <= p < t.len() && t[p] == seq_max(t);
                assert(s[p] == seq_max(s));
            }
        }
    }
}

/// The parent of an ancestor is still an ancestor.
proof fn lemma_ancestor_up(c: nat, j: nat)
    requires
        is_ancestor(c, j),
        c >= 2,
    ensures
        is_ancestor(c / 2, j),
    decreases j,
{
    if c == j {
        assert(is_ancestor(c / 2, j / 2));
    } else {
        lemma_ancestor_up(c, j / 2);
    }
}

/// Strict ancestors of `j` are at most `j / 2`.
proof fn lemma_ancestor_le(a: nat, j: nat)
    requires
        is_ancestor(a, j),
        a != j,
    ensures
        a <= j / 2,
    decreases j,
{
    if a != j / 2 {
        lemma_ancestor_le(a, j / 2);
    }
}

/// A node's sibling is not among its strict ancestors.
proof fn lemma_not_ancestor_of_sibling(s: nat, i: nat)
    requires
        i >= 2,
        s == (if i % 2 == 0 {
            i + 1
        } else {
            (i - 1) as nat
        }),
    ensures
        !(s != i && is_ancestor(s, i)),
{
    if is_ancestor(s, i) && s != i {
        lemma_ancestor_le(s, i);
    }
}

/// Updating one slot leaves every node that is not an ancestor of the
/// slot's leaf unchanged.
proof fn lemma_tree_val_frame(
    leaves: Seq<u32>,
    index: nat,
    value: u32,
    offset: nat,
    leaf: nat,
    j: nat,
)
    requires
        leaf == offset + index,
        index < leaves.len(),
        j >= 1,
        !is_ancestor(j, leaf),
    ensures
        tree_val(leaves.update(index as int, value), offset, j) == tree_val(leaves, offset, j),
    decreases (if j < offset {
        offset - j
    } else {
        0
    }),
{
    if j < offset {
        if is_ancestor(2 * j, leaf) {
            lemma_ancestor_up(2 * j, leaf);
        }
        if is_ancestor(2 * j + 1, leaf) {
            lemma_ancestor_up(2 * j + 1, leaf);
        }
        lemma_tree_val_frame(leaves, index, value, offset, leaf, 2 * j);
        lemma_tree_val_frame(leaves, index, value, offset, leaf, 2 * j + 1);
    }
}

impl Clone for SlotTree {
    fn clone(&self) -> (c: Self)
        ensures
            c@ == self@,
            c.spec_len() == self.spec_len(),
            self.wf() ==> c.wf(),
    {
        let buffer = self.buffer.clone();
        proof {
            assert(buffer@ =~= self.buffer@);
        }
        SlotTree { buffer, length: self.length, leaf_offset: self.leaf_offset }
    }
}

impl Clone for IncrementalMax {
    fn clone(&self) -> (c: Self)
        ensures
            c@ == self@,
            c.spec_len() == self.spec_len(),
    {
        proof {
            use_type_invariant(self);
        }
        IncrementalMax { tree: self.tree.clone() }
    }
}

} // verus!
