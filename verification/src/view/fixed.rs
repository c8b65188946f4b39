//! The view that stays on the best matches.

use super::{min_int, Event, Render, View};
use vstd::prelude::*;
use vstd::view::View as _;

verus! {

/// A window of `capacity` rows over the best matches, with the selection
/// `index` places after the best one.
pub struct FixedView {
    pub capacity: usize,
    pub index: usize,
}

impl FixedView {
    /// The view after the selection has moved up one row, unless it was on
    /// the top row.
    pub open spec fn after_up(self) -> Self {
        if self.index + 1 < self.capacity {
            FixedView { index: (self.index + 1) as usize, ..self }
        } else {
            self
        }
    }

    /// The view after the selection has moved down one row, unless it was on
    /// the bottom row.
    pub open spec fn after_down(self) -> Self {
        if self.index > 0 {
            FixedView { index: (self.index - 1) as usize, ..self }
        } else {
            self
        }
    }

    /// The view after it has been drawn over a list of `len` entries: reset
    /// where the list is empty; else a selection beyond the list is put on
    /// its last entry.
    pub open spec fn after_render(self, len: nat) -> Self {
        if len == 0 {
            FixedView { index: 0, ..self }
        } else if self.index >= len {
            FixedView { index: (len - 1) as usize, ..self }
        } else {
            self
        }
    }

    /// The view after one event.
    pub open spec fn after(self, event: Event) -> Self {
        match event {
            Event::Up => self.after_up(),
            Event::Down => self.after_down(),
            Event::Render { len } => self.after_render(len as nat),
        }
    }

    /// The view after the events, one after the other.
    pub open spec fn after_all(self, events: Seq<Event>) -> Self
        decreases events.len(),
    {
        if events.len() == 0 {
            self
        } else {
            self.after_all(events.drop_last()).after(events.last())
        }
    }

    /// A view of `capacity` rows with the selection on the best match.
    pub fn new(capacity: usize) -> (r: Self)
        requires
            capacity > 0,
        ensures
            r.capacity == capacity,
            r.index == 0,
            r.wf(),
    {
        Self { capacity, index: 0 }
    }
}

impl View for FixedView {
    open spec fn wf(&self) -> bool {
        self.capacity > 0 && self.index < self.capacity
    }

    open spec fn rows(&self) -> nat {
        self.capacity as nat
    }

    open spec fn hidden(&self) -> nat {
        0
    }

    open spec fn cursor(&self) -> nat {
        self.index as nat
    }

    /// Draws the window over the first matches of `items`. An empty list
    /// resets the view. Else a selection beyond the list is put on its last
    /// entry.
    fn render<'a, T>(&mut self, items: &'a [T]) -> (r: Render<&'a T>)
        ensures
            *final(self) == old(self).after_render(items@.len()),
    {
        let len: usize = items.len();
        if len == 0 {
            self.index = 0;
            Render::Empty
        } else {
            if self.index >= len {
                self.index = len - 1;
            }
            let sel: usize = self.index;
            let end: usize = if self.capacity < len {
                self.capacity
            } else {
                len
            };
            let mut below: Vec<&'a T> = Vec::new();
            let mut i: usize = 0;
            while i < sel
                invariant
                    i <= sel < len,
                    len == items@.len(),
                    below@.len() == i,
                    forall|k: int| 0 <= k < below@.len() ==> *(#[trigger] below@[k]) == items@[k],
                decreases sel - i,
            {
                below.push(&items[i]);
                i = i + 1;
            }
            let selected: &'a T = &items[sel];
            let mut above: Vec<&'a T> = Vec::new();
            let mut j: usize = sel + 1;
            while j < end
                invariant
                    sel + 1 <= j <= end <= len,
                    len == items@.len(),
                    above@.len() == j - (sel + 1),
                    forall|k: int| 0 <= k < above@.len() ==> *(#[trigger] above@[k]) == items@[sel + 1 + k],
                decreases end - j,
            {
                above.push(&items[j]);
                j = j + 1;
            }
            Render::NonEmpty { above, selected, below }
        }
    }

    /// Moves the selection up one row, unless it is on the top row.
    fn up(&mut self)
        ensures
            *final(self) == old(self).after_up(),
    {
        if self.index < self.capacity - 1 {
            self.index += 1;
        }
    }

    /// Moves the selection down one row, unless it is on the bottom row.
    fn down(&mut self)
        ensures
            *final(self) == old(self).after_down(),
    {
        if self.index > 0 {
            self.index -= 1;
        }
    }
}

/// Whatever moves and lists came before, a fixed view stays in order and
/// keeps its rows; and right after it is drawn over a list, the selection is
/// on one of the first entries of that list, as many as the view has rows at
/// most, or at 0 where the list is empty.
pub proof fn lemma_fixed_selection_in_range(view: FixedView, events: Seq<Event>)
    requires
        view.wf(),
    ensures
        view.after_all(events).wf(),
        view.after_all(events).capacity == view.capacity,
        events.len() > 0 ==> (events.last() matches Event::Render { len } ==> {
            let drawn = view.after_all(events);
            if len == 0 {
                drawn.index == 0
            } else {
                drawn.index < min_int(drawn.capacity as int, len as int)
            }
        }),
    decreases events.len(),
{
    if events.len() > 0 {
        lemma_fixed_selection_in_range(view, events.drop_last());
    }
}

} // verus!
