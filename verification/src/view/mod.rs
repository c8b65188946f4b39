//! The window over the ranked matches: what is drawn, and which entry is
//! selected.

use vstd::prelude::*;
use vstd::view::View as _;

/// Fixed view: only allows selection of the best matches
mod fixed;
/// Scrolling view: allows selection of all matches by scrolling up or down
mod scrolling;

pub use fixed::{lemma_fixed_selection_in_range, FixedView};
pub use scrolling::{clamped_index, clamped_skip, lemma_scrolling_selection_in_range, lemma_scrolling_window_size, ScrollingView};

verus! {

/// What a view shows of a list of matches: nothing, or the selected entry
/// with the entries drawn above and below it.
///
/// `above` runs from the entry next to the selected one upwards; `below` runs
/// from the bottom row up to the entry next to the selected one.
pub enum Render<T> {
    Empty,
    NonEmpty { above: Vec<T>, selected: T, below: Vec<T> },
}

/// What can happen to a view: the selection moves, or the view is drawn
/// over a list of `len` entries.
pub enum Event {
    Up,
    Down,
    Render { len: usize },
}

/// The smaller of two integers.
pub open spec fn min_int(a: int, b: int) -> int {
    if a <= b {
        a
    } else {
        b
    }
}

/// The rows of a window from top to bottom, each with the flag that marks
/// the selected one.
pub open spec fn rows_of<T>(above: Seq<T>, selected: T, below: Seq<T>) -> Seq<(bool, T)> {
    Seq::new(
        (above.len() + 1 + below.len()) as nat,
        |i: int|
            if i < above.len() {
                (false, above[above.len() - 1 - i])
            } else if i == above.len() {
                (true, selected)
            } else {
                (false, below[above.len() + below.len() - i])
            },
    )
}

/// `r` is the window over `items` that hides the first `start` entries, has
/// `capacity` rows at most and selects the entry `index` places after
/// `start`.
pub open spec fn shows<T>(r: Render<&T>, items: Seq<T>, start: int, index: int, capacity: int) -> bool {
    let end = min_int(start + capacity, items.len() as int);
    &&& r matches Render::NonEmpty { above, selected, below }
    &&& *selected == items[start + index]
    &&& below@.len() == index
    &&& forall|i: int| 0 <= i < index ==> *(#[trigger] below@[i]) == items[start + i]
    &&& above@.len() == end - (start + index + 1)
    &&& forall|i: int|
        0 <= i < above@.len() ==> *(#[trigger] above@[i]) == items[start + index + 1 + i]
}

impl<T> Render<T> {
    /// The entries above the selected one, nearest first.
    pub open spec fn above_seq(&self) -> Seq<T> {
        match self {
            Render::Empty => Seq::empty(),
            Render::NonEmpty { above, .. } => above@,
        }
    }

    /// The entries below the selected one, farthest first.
    pub open spec fn below_seq(&self) -> Seq<T> {
        match self {
            Render::Empty => Seq::empty(),
            Render::NonEmpty { below, .. } => below@,
        }
    }

    /// The number of rows.
    pub open spec fn len_spec(&self) -> nat {
        match self {
            Render::Empty => 0,
            Render::NonEmpty { above, below, .. } => above@.len() + 1 + below@.len(),
        }
    }

    /// The rows from top to bottom, the selected one flagged.
    pub open spec fn rows(&self) -> Seq<(bool, T)> {
        match self {
            Render::Empty => Seq::empty(),
            Render::NonEmpty { above, selected, below } => rows_of(above@, *selected, below@),
        }
    }

    /// The selected entry, if the window is not empty.
    pub fn selected(&self) -> (r: Option<&T>)
        ensures
            self is Empty <==> r is None,
            self matches Render::NonEmpty { selected, .. } ==> r == Some(selected),
    {
        match self {
            Render::Empty => None,
            Render::NonEmpty { selected, .. } => Some(selected),
        }
    }

    /// number of items above the selected item
    pub fn num_above(&self) -> (n: usize)
        ensures
            n == self.above_seq().len(),
    {
        match self {
            Render::Empty => 0,
            Render::NonEmpty { above, selected: _, below: _ } => above.len(),
        }
    }

    /// The number of rows.
    pub fn len(&self) -> (n: usize)
        requires
            self.len_spec() <= usize::MAX,
        ensures
            n == self.len_spec(),
    {
        match self {
            Render::Empty => 0,
            Render::NonEmpty { above, selected: _, below } => below.len() + 1 + above.len(),
        }
    }

    /// The rows from top to bottom, each with the flag that marks the
    /// selected one.
    pub fn into_rows(self) -> (v: Vec<(bool, T)>)
        ensures
            v@ == self.rows(),
    {
        match self {
            Render::Empty => Vec::new(),
            Render::NonEmpty { above, selected, below } => {
                let ghost a = above@;
                let ghost b = below@;
                let ghost s = selected;
                let ghost want = rows_of(a, s, b);
                let mut above = above;
                let mut below = below;
                let mut v: Vec<(bool, T)> = Vec::new();
                while above.len() > 0
                    invariant
                        above@.len() <= a.len(),
                        above@ == a.subrange(0, above@.len() as int),
                        want == rows_of(a, s, b),
                        v@.len() == a.len() - above@.len(),
                        forall|i: int| 0 <= i < v@.len() ==> v@[i] == want[i],
                    decreases above@.len(),
                {
                    let x = above.pop().unwrap();
                    v.push((false, x));
                }
                v.push((true, selected));
                while below.len() > 0
                    invariant
                        below@.len() <= b.len(),
                        below@ == b.subrange(0, below@.len() as int),
                        want == rows_of(a, s, b),
                        v@.len() == a.len() + 1 + b.len() - below@.len(),
                        forall|i: int| 0 <= i < v@.len() ==> v@[i] == want[i],
                    decreases below@.len(),
                {
                    let x = below.pop().unwrap();
                    v.push((false, x));
                }
                assert(v@ =~= want);
                v
            },
        }
    }
}

/// A window with a selection that moves over a list of matches.
pub trait View {
    /// The state is one that the view's operations keep: there is at least
    /// one row, and the selected row is one of them.
    spec fn wf(&self) -> bool;

    /// The number of rows.
    spec fn rows(&self) -> nat;

    /// The number of leading matches hidden before the window.
    spec fn hidden(&self) -> nat;

    /// The place of the selected entry within the window.
    spec fn cursor(&self) -> nat;

    /// Moves the selection one row up the screen, which is one entry further
    /// down the ranking, or leaves it where it is.
    fn up(&mut self)
        requires
            old(self).wf(),
        ensures
            final(self).wf(),
            final(self).rows() == old(self).rows(),
            old(self).hidden() + old(self).cursor() <= final(self).hidden() + final(self).cursor()
                <= old(self).hidden() + old(self).cursor() + 1,
    ;

    /// Moves the selection one row down the screen, which is one entry
    /// towards the best match, or leaves it where it is.
    fn down(&mut self)
        requires
            old(self).wf(),
        ensures
            final(self).wf(),
            final(self).rows() == old(self).rows(),
            final(self).hidden() + final(self).cursor() <= old(self).hidden() + old(self).cursor()
                <= final(self).hidden() + final(self).cursor() + 1,
    ;

    /// The window over `items`, which need not be the list of the call
    /// before: the selection is first brought back into the list.
    fn render<'a, T>(&mut self, items: &'a [T]) -> (r: Render<&'a T>)
        requires
            old(self).wf(),
        ensures
            final(self).wf(),
            final(self).rows() == old(self).rows(),
            items@.len() == 0 ==> r is Empty && final(self).cursor() == 0 && final(self).hidden()
                == 0,
            items@.len() > 0 ==> final(self).hidden() + final(self).cursor() < items@.len(),
            r.len_spec() == min_int(old(self).rows() as int, items@.len() as int),
            items@.len() > 0 ==> shows(
                r,
                items@,
                final(self).hidden() as int,
                final(self).cursor() as int,
                final(self).rows() as int,
            ),
    ;
}

} // verus!
