//! The entries that can be selected, bare and scored against a query.

use vstd::prelude::*;

verus! {

/// An entry that can be offered for selection: the label the user sees and
/// the value that the label stands for.
pub struct Item<T> {
    pub name: String,
    pub data: T,
}

/// An item together with its rank for the current query and the positions of
/// the characters of its label that the query matched.
pub struct ScoredItem<T> {
    pub item: Item<T>,
    pub score: i64,
    pub fuzzy_indices: Vec<usize>,
}

/// The positions are strictly increasing and each one is below `len`.
pub open spec fn positions_within(positions: Seq<usize>, len: nat) -> bool {
    &&& forall|i: int| 0 <= i < positions.len() ==> (#[trigger] positions[i]) < len
    &&& forall|i: int, j: int|
        0 <= i < j < positions.len() ==> (#[trigger] positions[i]) < (#[trigger] positions[j])
}

impl<T> Item<T> {
    /// An item with the given label, which may be empty.
    pub fn new(name: String, item: T) -> (r: Self)
        ensures
            r.name == name,
            r.data == item,
    {
        Item::<T> { name, data: item }
    }

    /// Attaches a score and the matched positions to the item. The positions
    /// are taken as they are.
    pub fn with_score(self, score: i64, fuzzy_indices: Vec<usize>) -> (r: ScoredItem<T>)
        ensures
            r.item == self,
            r.score == score,
            r.fuzzy_indices == fuzzy_indices,
    {
        ScoredItem { item: self, score, fuzzy_indices }
    }
}

impl<T> ScoredItem<T> {
    /// The matched positions point at characters of the label, in rising
    /// order.
    pub open spec fn wf(&self) -> bool {
        positions_within(self.fuzzy_indices@, self.item.name@.len())
    }
}

impl<T: Clone> Clone for Item<T> {
    /// The copy has the same label and a clone of the value.
    fn clone(&self) -> (r: Self)
        ensures
            r.name == self.name,
            cloned(self.data, r.data),
    {
        Item { name: self.name.clone(), data: self.data.clone() }
    }
}

impl<T: Clone> Clone for ScoredItem<T> {
    /// The copy has the same label, score and positions, and a clone of the
    /// value.
    fn clone(&self) -> (r: Self)
        ensures
            r.item.name == self.item.name,
            cloned(self.item.data, r.item.data),
            r.score == self.score,
            r.fuzzy_indices@ == self.fuzzy_indices@,
    {
        let fuzzy_indices = self.fuzzy_indices.clone();
        assert(fuzzy_indices@ =~= self.fuzzy_indices@);
        ScoredItem { item: self.item.clone(), score: self.score, fuzzy_indices }
    }
}

} // verus!
