//! The set of labels carried by an audio entity, and how the labels
//! register the entity in the [`NodeMap`].
use crate::edge::{lemma_prefix_extends, EntityId, LabelId, NodeMap};
use smallvec::SmallVec;
use vstd::prelude::*;

verus! {

/// The small vector that stores the labels of one entity, held opaquely
/// in a private field: `SmallVec`'s parameter is bound by the outside
/// trait `smallvec::Array`, so the type cannot be declared directly.
#[verifier::external_body]
#[derive(Debug)]
pub struct LabelVec(SmallVec<[LabelId; 1]>);

/// The labels held by a small vector, in order.
pub uninterp spec fn label_list(v: LabelVec) -> Seq<LabelId>;

/// `SmallVec::new`: an empty vector.
#[verifier::external_body]
fn labels_new() -> (v: LabelVec)
    ensures
        label_list(v) == Seq::<LabelId>::empty(),
{
    LabelVec(SmallVec::new())
}

/// `SmallVec::push`: appends the label at the end. It panics only when
/// the grown capacity would not fit in memory ("capacity overflow"),
/// which the bound in `requires` rules out.
#[verifier::external_body]
fn labels_push(v: &mut LabelVec, label: LabelId)
    requires
        label_list(*old(v)).len() < isize::MAX / 16,
    ensures
        label_list(*final(v)) == label_list(*old(v)).push(label),
{
    v.0.push(label)
}

/// `SmallVec::remove`: takes out the label at `index`, shifting the
/// later ones down; it panics past the end, which `requires` rules out.
#[verifier::external_body]
fn labels_remove(v: &mut LabelVec, index: usize) -> (removed: LabelId)
    requires
        index < label_list(*old(v)).len(),
    ensures
        removed == label_list(*old(v))[index as int],
        label_list(*final(v)) == label_list(*old(v)).remove(index as int),
{
    v.0.remove(index)
}

/// `SmallVec::as_slice`: the labels as a slice.
#[verifier::external_body]
fn labels_as_slice(v: &LabelVec) -> (s: &[LabelId])
    ensures
        s@ == label_list(*v),
{
    v.0.as_slice()
}

/// A collection of all node labels applied to an entity.
#[derive(Debug)]
pub struct NodeLabels(LabelVec);

impl View for NodeLabels {
    type V = Seq<LabelId>;

    closed spec fn view(&self) -> Seq<LabelId> {
        label_list(self.0)
    }
}

impl NodeLabels {
    /// No labels.
    pub fn new() -> (l: Self)
        ensures
            l@ == Seq::<LabelId>::empty(),
    {
        NodeLabels(labels_new())
    }

    /// The labels, in the order they were inserted.
    pub fn as_slice(&self) -> (s: &[LabelId])
        ensures
            s@ == self@,
    {
        labels_as_slice(&self.0)
    }

    /// Whether `label` is in the set.
    pub fn contains(&self, label: LabelId) -> (b: bool)
        ensures
            b <==> self@.contains(label),
    {
        let s = labels_as_slice(&self.0);
        let mut k: usize = 0;
        while k < s.len()
            invariant
                s@ == self@,
                k <= s@.len(),
                forall|i: int| 0 <= i < k ==> s@[i] != label,
            decreases s@.len() - k,
        {
            if s[k] == label {
                proof {
                    assert(self@[k as int] == label);
                }
                return true;
            }
            k = k + 1;
        }
        false
    }

    /// Insert a label.
    ///
    /// Returns `true` if the label is newly inserted.
    pub fn insert(&mut self, label: LabelId) -> (inserted: bool)
        requires
            old(self)@.len() < isize::MAX / 16,
        ensures
            inserted <==> !old(self)@.contains(label),
            inserted ==> final(self)@ == old(self)@.push(label),
            !inserted ==> final(self)@ == old(self)@,
    {
        if !self.contains(label) {
            labels_push(&mut self.0, label);
            true
        } else {
            false
        }
    }

    /// Remove a label.
    ///
    /// Returns `true` if the label was in the set; only its first
    /// occurrence is removed.
    pub fn remove(&mut self, label: LabelId) -> (removed: bool)
        ensures
            removed <==> old(self)@.contains(label),
            !removed ==> final(self)@ == old(self)@,
            removed ==> exists|i: int|
                0 <= i < old(self)@.len() && old(self)@[i] == label && (forall|j: int|
                    0 <= j < i ==> old(self)@[j] != label) && final(self)@ == old(self)@.remove(i),
    {
        let s = labels_as_slice(&self.0);
        let mut k: usize = 0;
        while k < s.len()
            invariant
                s@ == old(self)@,
                s@ == self@,
                k <= s@.len(),
                forall|i: int| 0 <= i < k ==> s@[i] != label,
            decreases s@.len() - k,
        {
            if s[k] == label {
                labels_remove(&mut self.0, k);
                return true;
            }
            k = k + 1;
        }
        false
    }
}

impl Default for NodeLabels {
    fn default() -> (l: Self)
        ensures
            l@ == Seq::<LabelId>::empty(),
    {
        NodeLabels::new()
    }
}

/// Inserting a label into a set without duplicates keeps it free of
/// duplicates and makes the label a member.
pub proof fn lemma_insert_keeps_labels_distinct(before: Seq<LabelId>, after: Seq<LabelId>, label: LabelId)
    requires
        before.no_duplicates(),
        before.contains(label) ==> after == before,
        !before.contains(label) ==> after == before.push(label),
    ensures
        after.no_duplicates(),
        after.contains(label),
{
    if !before.contains(label) {
        assert(after[before.len() as int] == label);
    }
}

/// In a set without duplicates, removing a label that was inserted
/// into it restores the set as it was before the insertion.
pub proof fn lemma_remove_undoes_insert(before: Seq<LabelId>, label: LabelId, after: Seq<LabelId>, i: int)
    requires
        !before.contains(label),
        0 <= i < before.len() + 1,
        before.push(label)[i] == label,
        forall|j: int| 0 <= j < i ==> before.push(label)[j] != label,
        after == before.push(label).remove(i),
    ensures
        after == before,
{
    if i < before.len() {
        assert(before[i] == label);
    }
    assert(after =~= before);
}

impl NodeMap {
    /// Register `entity` under each of its labels.
    pub fn register(&mut self, labels: &NodeLabels, entity: EntityId)
        ensures
            forall|l: LabelId|
                #![trigger final(self)@.contains_key(l)]
                final(self)@.contains_key(l) <==> (old(self)@.contains_key(l) || labels@.contains(l)),
            forall|l: LabelId|
                final(self)@.contains_key(l) ==> #[trigger] final(self)@[l] == (if labels@.contains(l) {
                    entity
                } else {
                    old(self)@[l]
                }),
    {
        let s = labels.as_slice();
        let mut k: usize = 0;
        while k < s.len()
            invariant
                s@ == labels@,
                k <= s@.len(),
                forall|l: LabelId|
                    #![trigger self@.contains_key(l)]
                    self@.contains_key(l) <==> (old(self)@.contains_key(l) || s@.subrange(
                        0,
                        k as int,
                    ).contains(l)),
                forall|l: LabelId|
                    self@.contains_key(l) ==> #[trigger] self@[l] == (if s@.subrange(0, k as int).contains(l) {
                        entity
                    } else {
                        old(self)@[l]
                    }),
            decreases s@.len() - k,
        {
            self.insert(s[k], entity);
            proof {
                lemma_prefix_extends(s@, k as int);
            }
            k = k + 1;
        }
        proof {
            assert(s@.subrange(0, s@.len() as int) =~= s@);
        }
    }

    /// Forget every label the entity carried, as when its labels are
    /// removed.
    pub fn forget(&mut self, labels: &NodeLabels)
        ensures
            final(self)@ == old(self)@.remove_keys(labels@.to_set()),
    {
        self.remove_labels(labels.as_slice());
    }
}

} // verus!
