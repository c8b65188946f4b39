//! A bounded list of the best matches with a selection that moves within it.

use vstd::prelude::*;

verus! {

/// The best matches, at most `capacity` of them and the best one first, with
/// the place of the selected one.
pub struct List<T> where T: Clone {
    /// maximum number of items
    capacity: usize,
    /// the items, ordered from bottom to top
    items: Vec<T>,
    /// index of the selected item
    index: usize,
}

/// What a list holds, as plain values.
pub struct ListModel<T> {
    pub capacity: nat,
    pub items: Seq<T>,
    pub index: nat,
}

impl<T> View for List<T> where T: Clone {
    type V = ListModel<T>;

    closed spec fn view(&self) -> ListModel<T> {
        ListModel { capacity: self.capacity as nat, items: self.items@, index: self.index as nat }
    }
}

impl<T> ListModel<T> {
    /// There is room for an item, no more items than there is room for, and
    /// the selection is on one of them, or at 0 where there is none.
    pub open spec fn wf(&self) -> bool {
        &&& self.capacity > 0
        &&& self.items.len() <= self.capacity
        &&& (self.index < self.items.len() || (self.items.len() == 0 && self.index == 0))
    }

    /// The items from top to bottom: the last one first.
    pub open spec fn top_down(&self) -> Seq<T> {
        self.items.reverse()
    }
}

/// `b` holds a clone of each entry of `a`, in the same order.
pub open spec fn cloned_seq<T: Clone>(a: Seq<T>, b: Seq<T>) -> bool {
    &&& a.len() == b.len()
    &&& forall|i: int| 0 <= i < a.len() ==> cloned(#[trigger] a[i], b[i])
}

impl<T> List<T> where T: Clone {
    /// What every list keeps: its model is in order.
    #[verifier::type_invariant]
    closed spec fn inv(self) -> bool {
        self@.wf()
    }

    /// Initialize a `List` with some `capacity` > 0
    pub fn new(capacity: usize) -> (r: Self)
        requires
            capacity > 0,
        ensures
            r@.wf(),
            r@.capacity == capacity,
            r@.items.len() == 0,
            r@.index == 0,
    {
        List { capacity, items: Vec::new(), index: 0 }
    }

    /// Items in order from top to bottom
    pub fn items(&self) -> (r: Vec<T>)
        ensures
            cloned_seq(self@.top_down(), r@),
    {
        let mut out: Vec<T> = Vec::new();
        let n: usize = self.items.len();
        let mut i: usize = n;
        while i > 0
            invariant
                i <= n,
                n == self.items@.len(),
                out@.len() == n - i,
                forall|k: int| 0 <= k < out@.len() ==> cloned(#[trigger] self.items@[n - 1 - k], out@[k]),
            decreases i,
        {
            i = i - 1;
            out.push(self.items[i].clone());
        }
        out
    }

    /// Items in order from top to bottom, each with a flag. The flag is set
    /// on the row whose place from the top is the number of items less the
    /// place of the selection.
    pub fn tagged_iter(&self) -> (r: Vec<(bool, T)>)
        ensures
            r@.len() == self@.items.len(),
            forall|k: int|
                0 <= k < r@.len() ==> (#[trigger] r@[k]).0 == (k == self@.items.len() - self@.index)
                    && cloned(self@.top_down()[k], r@[k].1),
    {
        proof {
            use_type_invariant(self);
        }
        let mut out: Vec<(bool, T)> = Vec::new();
        let n: usize = self.items.len();
        let index_from_top: usize = n - self.index;
        let mut i: usize = n;
        while i > 0
            invariant
                i <= n,
                n == self.items@.len(),
                index_from_top == n - self.index,
                out@.len() == n - i,
                forall|k: int|
                    0 <= k < out@.len() ==> (#[trigger] out@[k]).0 == (k == index_from_top) && cloned(
                        self.items@[n - 1 - k],
                        out@[k].1,
                    ),
            decreases i,
        {
            i = i - 1;
            out.push((n - 1 - i == index_from_top, self.items[i].clone()));
        }
        out
    }

    /// The largest number of items that the list holds.
    pub fn capacity(&self) -> (r: usize)
        ensures
            r == self@.capacity,
            self@.wf(),
    {
        proof {
            use_type_invariant(self);
        }
        self.capacity
    }

    /// The number of items that the list holds.
    pub fn len(&self) -> (r: usize)
        ensures
            r == self@.items.len(),
            self@.wf(),
    {
        proof {
            use_type_invariant(self);
        }
        self.items.len()
    }

    /// number of items above the selected one
    pub fn num_above(&self) -> (r: Option<usize>)
        ensures
            self@.items.len() == 0 <==> r is None,
            r matches Some(n) ==> n == self@.items.len() - 1 - self@.index,
    {
        proof {
            use_type_invariant(self);
        }
        if self.items.len() == 0 {
            None
        } else {
            Some(self.items.len() - 1 - self.index)
        }
    }

    /// Moves the selection one item up, unless it is on the top one.
    pub fn up(&mut self)
        ensures
            final(self)@.wf(),
            final(self)@.capacity == old(self)@.capacity,
            final(self)@.items == old(self)@.items,
            final(self)@.index == (if old(self)@.index + 1 < old(self)@.items.len() {
                old(self)@.index + 1
            } else {
                old(self)@.index
            }),
    {
        proof {
            use_type_invariant(&*self);
        }
        if self.items.len() > 0 && self.index < self.items.len() - 1 {
            self.index = self.index + 1;
        }
    }

    /// Moves the selection one item down, unless it is on the bottom one.
    pub fn down(&mut self)
        ensures
            final(self)@.wf(),
            final(self)@.capacity == old(self)@.capacity,
            final(self)@.items == old(self)@.items,
            final(self)@.index == (if old(self)@.index > 0 {
                old(self)@.index - 1
            } else {
                0
            }),
    {
        proof {
            use_type_invariant(&*self);
        }
        if self.index > 0 {
            self.index = self.index - 1;
        }
    }

    /// Takes the current matches and updates the visible contents.
    ///
    /// The input matches are assumed to be sorted in descending order of score.
    pub fn update(&mut self, matches: &[T])
        ensures
            final(self)@.wf(),
            final(self)@.capacity == old(self)@.capacity,
            final(self)@.items.len() == (if matches@.len() < old(self)@.capacity {
                matches@.len()
            } else {
                old(self)@.capacity
            }),
            cloned_seq(matches@.take(final(self)@.items.len() as int), final(self)@.items),
            final(self)@.index == (if final(self)@.items.len() == 0 {
                0
            } else if old(self)@.index < final(self)@.items.len() {
                old(self)@.index
            } else {
                (final(self)@.items.len() - 1) as nat
            }),
    {
        proof {
            use_type_invariant(&*self);
        }
        let n: usize = if matches.len() < self.capacity {
            matches.len()
        } else {
            self.capacity
        };
        let mut items: Vec<T> = Vec::new();
        let mut i: usize = 0;
        while i < n
            invariant
                i <= n <= matches@.len(),
                items@.len() == i,
                forall|k: int| 0 <= k < i ==> cloned(#[trigger] matches@[k], items@[k]),
            decreases n - i,
        {
            items.push(matches[i].clone());
            i = i + 1;
        }
        if n == 0 {
            self.index = 0;
        } else if self.index > n - 1 {
            self.index = n - 1;
        }
        self.items = items;
    }

    /// The selected item.
    pub fn get_selected(&self) -> (r: &T)
        requires
            self@.items.len() > 0,
        ensures
            *r == self@.items[self@.index as int],
    {
        proof {
            use_type_invariant(self);
        }
        &self.items[self.index]
    }
}

} // verus!
