//! The view that pans over the whole list of matches.

use super::{min_int, Event, Render, View};
use vstd::prelude::*;
use vstd::view::View as _;

verus! {

/// A window of `capacity` rows that hides the first `skip` matches and
/// selects the match `index` places after them.
pub struct ScrollingView {
    pub capacity: usize,
    pub index: usize,
    pub skip: usize,
}

/// The number of matches that a scrolling window hides once it is drawn over
/// a list of `len` entries: the window is pulled back until it ends with the
/// list, or starts with it.
pub open spec fn clamped_skip(capacity: int, skip: int, len: int) -> int {
    if skip + capacity > len {
        if len > capacity {
            len - capacity
        } else {
            0
        }
    } else {
        skip
    }
}

/// The place of the selection within a scrolling window once it is drawn
/// over a list of `len > 0` entries.
pub open spec fn clamped_index(capacity: int, index: int, skip: int, len: int) -> int {
    let s = clamped_skip(capacity, skip, len);
    if s + index + 1 > len {
        len - s - 1
    } else {
        index
    }
}

impl ScrollingView {
    /// The view after the selection has moved up one row: while a row is
    /// left above the selection it goes there; from the top row the window
    /// pans one entry instead.
    pub open spec fn after_up(self) -> Self {
        if self.index + 1 < self.capacity {
            ScrollingView { index: (self.index + 1) as usize, ..self }
        } else if self.skip < usize::MAX {
            ScrollingView { skip: (self.skip + 1) as usize, ..self }
        } else {
            self
        }
    }

    /// The view after the selection has moved down one row: while a row is
    /// left below the selection it goes there; from the bottom row the
    /// window pans back one entry, as long as one is hidden.
    pub open spec fn after_down(self) -> Self {
        if self.index > 0 {
            ScrollingView { index: (self.index - 1) as usize, ..self }
        } else if self.skip > 0 {
            ScrollingView { skip: (self.skip - 1) as usize, ..self }
        } else {
            self
        }
    }

    /// The view after it has been drawn over a list of `len` entries: reset
    /// where the list is empty, else pulled back into the list.
    pub open spec fn after_render(self, len: nat) -> Self {
        if len == 0 {
            ScrollingView { index: 0, skip: 0, ..self }
        } else {
            ScrollingView {
                capacity: self.capacity,
                index: clamped_index(
                    self.capacity as int,
                    self.index as int,
                    self.skip as int,
                    len as int,
                ) as usize,
                skip: clamped_skip(self.capacity as int, self.skip as int, len as int) as usize,
            }
        }
    }

    /// The view after one event.
    pub open spec fn after(self, event: Event) -> Self {
        match event {
            Event::Up => self.after_up(),
            Event::Down => self.after_down(),
            Event::Render { len } => self.after_render(len as nat),
        }
    }

    /// The view after the events, one after the other.
    pub open spec fn after_all(self, events: Seq<Event>) -> Self
        decreases events.len(),
    {
        if events.len() == 0 {
            self
        } else {
            self.after_all(events.drop_last()).after(events.last())
        }
    }

    /// A view of `capacity` rows with the selection on the best match.
    pub fn new(capacity: usize) -> (r: Self)
        requires
            capacity > 0,
        ensures
            r.capacity == capacity,
            r.index == 0,
            r.skip == 0,
            r.wf(),
    {
        Self { capacity, index: 0, skip: 0 }
    }
}

impl View for ScrollingView {
    open spec fn wf(&self) -> bool {
        self.capacity > 0 && self.index < self.capacity
    }

    open spec fn rows(&self) -> nat {
        self.capacity as nat
    }

    open spec fn hidden(&self) -> nat {
        self.skip as nat
    }

    open spec fn cursor(&self) -> nat {
        self.index as nat
    }

    /// Draws the window over `items`. An empty list resets the view. Else
    /// the window is first pulled back into the list, then the selection
    /// into the window.
    fn render<'a, T>(&mut self, items: &'a [T]) -> (r: Render<&'a T>)
        ensures
            *final(self) == old(self).after_render(items@.len()),
    {
        let len: usize = items.len();
        if len == 0 {
            self.index = 0;
            self.skip = 0;
            Render::Empty
        } else {
            if self.skip > len || self.capacity > len - self.skip {
                self.skip = if len > self.capacity {
                    len - self.capacity
                } else {
                    0
                };
            }
            if self.index >= len - self.skip {
                self.index = len - self.skip - 1;
            }
            let start: usize = self.skip;
            let sel: usize = start + self.index;
            let end: usize = if self.capacity < len - start {
                start + self.capacity
            } else {
                len
            };
            let mut below: Vec<&'a T> = Vec::new();
            let mut i: usize = start;
            while i < sel
                invariant
                    start <= i <= sel < len,
                    len == items@.len(),
                    below@.len() == i - start,
                    forall|k: int| 0 <= k < below@.len() ==> *(#[trigger] below@[k]) == items@[start + k],
                decreases sel - i,
            {
                below.push(&items[i]);
                i = i + 1;
            }
            let selected: &'a T = &items[sel];
            let mut above: Vec<&'a T> = Vec::new();
            let mut j: usize = sel + 1;
            while j < end
                invariant
                    sel + 1 <= j <= end <= len,
                    len == items@.len(),
                    above@.len() == j - (sel + 1),
                    forall|k: int| 0 <= k < above@.len() ==> *(#[trigger] above@[k]) == items@[sel + 1 + k],
                decreases end - j,
            {
                above.push(&items[j]);
                j = j + 1;
            }
            Render::NonEmpty { above, selected, below }
        }
    }

    /// Moves the selection up one row while a row is left above it; at the
    /// top row the window pans one entry instead.
    fn up(&mut self)
        ensures
            *final(self) == old(self).after_up(),
    {
        if self.index < self.capacity - 1 {
            self.index += 1;
        } else if self.skip < usize::MAX {
            self.skip += 1;
        }
    }

    /// Moves the selection down one row while a row is left below it; at the
    /// bottom row the window pans back one entry, as long as one is hidden.
    fn down(&mut self)
        ensures
            *final(self) == old(self).after_down(),
    {
        if self.index > 0 {
            self.index -= 1;
        } else if self.skip > 0 {
            self.skip -= 1;
        }
    }
}

/// Whatever moves and lists came before, a scrolling view stays in order
/// and keeps its rows; and right after it is drawn over a list, the
/// selection is on an entry of that list and on a row of the window, and the
/// window ends within the list or starts with it; where the list is empty
/// the view is reset.
pub proof fn lemma_scrolling_selection_in_range(view: ScrollingView, events: Seq<Event>)
    requires
        view.wf(),
    ensures
        view.after_all(events).wf(),
        view.after_all(events).capacity == view.capacity,
        events.len() > 0 ==> (events.last() matches Event::Render { len } ==> {
            let drawn = view.after_all(events);
            if len == 0 {
                drawn.index == 0 && drawn.skip == 0
            } else {
                &&& drawn.skip + drawn.index < len
                &&& drawn.index < drawn.capacity
                &&& drawn.skip + drawn.capacity <= len || drawn.skip == 0
            }
        }),
    decreases events.len(),
{
    if events.len() > 0 {
        lemma_scrolling_selection_in_range(view, events.drop_last());
    }
}

/// A scrolling window drawn over a list shows as many rows as it has, or
/// the whole list where that is shorter.
pub proof fn lemma_scrolling_window_size(view: ScrollingView, len: nat)
    requires
        view.wf(),
        len > 0,
    ensures
        ({
            let drawn = view.after_render(len);
            min_int(drawn.skip + drawn.capacity, len as int) - drawn.skip == min_int(
                view.capacity as int,
                len as int,
            )
        }),
{
}

} // verus!
