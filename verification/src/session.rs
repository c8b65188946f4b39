//! The selection session: the items on offer, the query typed so far, the
//! ranked matches and the window over them, driven by key events.

use crate::item::{Item, ScoredItem};
use crate::line::{coloured_line, get_coloured_line};
use crate::rank::{all_unscored, is_ranking, rank_matches};
use crate::view::{min_int, ScrollingView, View};
use vstd::prelude::*;
use vstd::string::*;
use vstd::view::View as _;

verus! {

/// A key press as the session takes it.
#[derive(Clone, Copy, PartialEq, Eq, Debug)]
pub enum Key {
    /// A character key; the line feed is the enter key.
    Char(char),
    /// A character key pressed together with the control key.
    Ctrl(char),
    /// The escape key, or the start of an arrow key's sequence.
    Esc,
    Backspace,
    /// Any other key.
    Other,
}

/// How far an escape sequence has come.
#[derive(Clone, Copy, PartialEq, Eq, Debug)]
pub enum Escape {
    /// No sequence is under way.
    Idle,
    /// The escape character has come.
    Started,
    /// The escape character and an opening bracket have come.
    Bracket,
}

/// What is to be done after a key press.
pub enum Step<T> {
    /// An escape sequence is under way: wait for the next key.
    Wait,
    /// Nothing is to be drawn.
    Keep,
    /// The query or the selection changed: draw the session anew.
    Draw,
    /// The session ends without a choice.
    Cancel,
    /// The session ends with the value of the selected match.
    Chosen(T),
}

/// A selection session.
pub struct FuzzyFinder<T> where T: Clone {
    pub search_term: String,
    pub all_items: Vec<Item<T>>,
    pub matches: Vec<ScoredItem<T>>,
    pub view: ScrollingView,
    pub escape: Escape,
}

/// Calls `String::push` of std. Believed of it: the character is added at
/// the end of the text.
#[verifier::external_body]
fn push_char(s: &mut String, c: char)
    ensures
        final(s)@ == old(s)@.push(c),
{
    s.push(c)
}

/// The text without its last character; the empty text stays empty.
pub open spec fn without_last(text: Seq<char>) -> Seq<char> {
    if text.len() > 0 {
        text.drop_last()
    } else {
        text
    }
}

/// The escape state after a character other than the line feed.
pub open spec fn escape_after_char(escape: Escape, c: char) -> Escape {
    if escape == Escape::Started && c == '[' {
        Escape::Bracket
    } else {
        Escape::Idle
    }
}

/// The rows of the screen from top to bottom for a view that has been
/// drawn over `matches`: as many rows as the view has, the empty ones first,
/// then the matches in the window, the last of them on top.
pub open spec fn screen<T>(matches: Seq<ScoredItem<T>>, view: ScrollingView) -> Seq<Seq<char>> {
    let shown = min_int(view.capacity as int, matches.len() as int);
    let blank = view.capacity - shown;
    Seq::new(
        view.capacity as nat,
        |row: int|
            if row < blank {
                Seq::<char>::empty()
            } else {
                let place = view.skip + shown - 1 - (row - blank);
                coloured_line(
                    matches[place].fuzzy_indices@,
                    matches[place].item.name@,
                    place == view.skip + view.index,
                )
            },
    )
}

impl<T> FuzzyFinder<T> where T: Clone {
    /// The window has a row, and the selection is on one of its rows.
    pub open spec fn wf(&self) -> bool {
        self.view.wf()
    }

    /// The matches are the ranking of the items for the query; for the
    /// empty query these are all the items in their own order.
    pub open spec fn is_ranked(&self) -> bool {
        &&& is_ranking(self.all_items@, self.search_term@, self.matches@)
        &&& self.search_term@.len() == 0 ==> all_unscored(self.all_items@, self.matches@)
    }

    /// A session over `functions` with an empty query, every item matching,
    /// and a scrolling window of `lines_to_show` rows.
    pub fn new(functions: Vec<Item<T>>, lines_to_show: i8) -> (r: Self)
        requires
            lines_to_show > 0,
        ensures
            r.wf(),
            r.is_ranked(),
            r.all_items == functions,
            r.search_term@.len() == 0,
            r.view == (ScrollingView { capacity: lines_to_show as usize, index: 0, skip: 0 }),
            r.escape == Escape::Idle,
    {
        let search_term = String::new();
        let matches = rank_matches(&functions, search_term.as_str());
        FuzzyFinder {
            search_term,
            all_items: functions,
            matches,
            view: ScrollingView::new(lines_to_show as usize),
            escape: Escape::Idle,
        }
    }

    /// Moves the selection one row up and ranks the matches anew.
    pub fn up(&mut self)
        requires
            old(self).wf(),
        ensures
            final(self).wf(),
            final(self).is_ranked(),
            final(self).view == old(self).view.after_up(),
            final(self).all_items == old(self).all_items,
            final(self).search_term == old(self).search_term,
            final(self).escape == old(self).escape,
    {
        self.view.up();
        self.update_matches();
    }

    /// Moves the selection one row down and ranks the matches anew.
    pub fn down(&mut self)
        requires
            old(self).wf(),
        ensures
            final(self).wf(),
            final(self).is_ranked(),
            final(self).view == old(self).view.after_down(),
            final(self).all_items == old(self).all_items,
            final(self).search_term == old(self).search_term,
            final(self).escape == old(self).escape,
    {
        self.view.down();
        self.update_matches();
    }

    /// Adds a character to the query and ranks the matches anew.
    pub fn append(&mut self, c: char)
        ensures
            final(self).search_term@ == old(self).search_term@.push(c),
            final(self).is_ranked(),
            final(self).view == old(self).view,
            final(self).all_items == old(self).all_items,
            final(self).escape == old(self).escape,
    {
        push_char(&mut self.search_term, c);
        self.update_matches();
    }

    /// Takes the last character off the query, if it has one, and ranks the
    /// matches anew.
    pub fn backspace(&mut self)
        ensures
            final(self).search_term@ == without_last(old(self).search_term@),
            final(self).is_ranked(),
            final(self).view == old(self).view,
            final(self).all_items == old(self).all_items,
            final(self).escape == old(self).escape,
    {
        let n: usize = self.search_term.as_str().unicode_len();
        if n > 0 {
            let shorter = String::from_str(self.search_term.as_str().substring_char(0, n - 1));
            assert(shorter@ =~= old(self).search_term@.drop_last());
            self.search_term = shorter;
        }
        self.update_matches();
    }

    /// Gets functions that match our current criteria, sorted by score.
    pub fn update_matches(&mut self)
        ensures
            final(self).is_ranked(),
            final(self).search_term == old(self).search_term,
            final(self).all_items == old(self).all_items,
            final(self).view == old(self).view,
            final(self).escape == old(self).escape,
    {
        self.matches = rank_matches(&self.all_items, self.search_term.as_str());
    }

    /// Draws the window over the current matches and gives the rows of the
    /// screen from top to bottom, one for each row of the view.
    pub fn render(&mut self) -> (rows: Vec<String>)
        requires
            old(self).wf(),
        ensures
            final(self).view == old(self).view.after_render(old(self).matches@.len()),
            final(self).wf(),
            final(self).matches == old(self).matches,
            final(self).search_term == old(self).search_term,
            final(self).all_items == old(self).all_items,
            final(self).escape == old(self).escape,
            rows@.len() == old(self).view.capacity,
            forall|i: int|
                0 <= i < rows@.len() ==> (#[trigger] rows@[i])@ == screen(
                    old(self).matches@,
                    final(self).view,
                )[i],
    {
        let capacity: usize = self.view.capacity;
        let window = self.view.render(self.matches.as_slice());
        let ghost view = self.view;
        let ghost matches = self.matches@;
        let ghost want = screen(matches, view);
        let ghost shown = min_int(capacity as int, matches.len() as int);
        let list = window.into_rows();
        assert(list@.len() == shown);
        let blank: usize = capacity - list.len();
        let mut rows: Vec<String> = Vec::new();
        let mut b: usize = 0;
        while b < blank
            invariant
                b <= blank <= capacity,
                want == screen(matches, view),
                view.capacity == capacity,
                blank == capacity - shown,
                shown == min_int(capacity as int, matches.len() as int),
                rows@.len() == b,
                forall|i: int| 0 <= i < b ==> (#[trigger] rows@[i])@ == want[i],
            decreases blank - b,
        {
            rows.push(String::new());
            b = b + 1;
        }
        let mut k: usize = 0;
        while k < list.len()
            invariant
                k <= list@.len(),
                list@.len() == shown,
                want == screen(matches, view),
                view.capacity == capacity,
                blank == capacity - shown,
                shown == min_int(capacity as int, matches.len() as int),
                rows@.len() == blank + k,
                forall|i: int| 0 <= i < rows@.len() ==> (#[trigger] rows@[i])@ == want[i],
                forall|i: int|
                    0 <= i < shown ==> (#[trigger] list@[i]).0 == (view.skip + shown - 1 - i == view.skip
                        + view.index) && *list@[i].1 == matches[view.skip + shown - 1 - i],
            decreases list@.len() - k,
        {
            let is_selected: bool = list[k].0;
            let scored_item: &ScoredItem<T> = list[k].1;
            let coloured = get_coloured_line(
                scored_item.fuzzy_indices.as_slice(),
                scored_item.item.name.as_str(),
                is_selected,
            );
            rows.push(coloured);
            k = k + 1;
        }
        rows
    }

    /// The value of the selected match, if there is a match at all. The
    /// window is first brought back into the list of matches.
    pub fn confirm(&mut self) -> (r: Option<T>)
        requires
            old(self).wf(),
        ensures
            final(self).view == (if old(self).matches@.len() == 0 {
                old(self).view
            } else {
                old(self).view.after_render(old(self).matches@.len())
            }),
            final(self).wf(),
            final(self).matches == old(self).matches,
            final(self).search_term == old(self).search_term,
            final(self).all_items == old(self).all_items,
            final(self).escape == old(self).escape,
            old(self).matches@.len() == 0 <==> r is None,
            r matches Some(data) ==> cloned(
                old(self).matches@[final(self).view.skip + final(self).view.index].item.data,
                data,
            ),
    {
        if self.matches.len() == 0 {
            None
        } else {
            let window = self.view.render(self.matches.as_slice());
            match window.selected() {
                Some(found) => Some(found.item.data.clone()),
                None => None,
            }
        }
    }

    /// Whether the escape character has come and nothing after it: if no
    /// key follows in time, the escape key was pressed by itself.
    pub fn escape_pending(&self) -> (r: bool)
        ensures
            r == (self.escape == Escape::Started),
    {
        match self.escape {
            Escape::Started => true,
            _ => false,
        }
    }

    /// Takes a key press and says what is to be done.
    ///
    /// Enter ends the session with the selected match, or without a choice
    /// where nothing matches. Control with `c` or `d` ends it without a
    /// choice. Escape, `[` and `A` or `B` in a row move the selection up or
    /// down. Any other character joins the query, and backspace takes the
    /// last one off.
    pub fn on_key(&mut self, key: Key) -> (step: Step<T>)
        requires
            old(self).wf(),
        ensures
            final(self).wf(),
            old(self).is_ranked() ==> final(self).is_ranked(),
            final(self).all_items == old(self).all_items,
            match key {
                Key::Char('\n') => {
                    &&& final(self).view == (if old(self).matches@.len() == 0 {
                        old(self).view
                    } else {
                        old(self).view.after_render(old(self).matches@.len())
                    })
                    &&& final(self).matches == old(self).matches
                    &&& final(self).search_term == old(self).search_term
                    &&& final(self).escape == old(self).escape
                    &&& old(self).matches@.len() == 0 <==> step is Cancel
                    &&& old(self).matches@.len() > 0 ==> step is Chosen
                    &&& step matches Step::Chosen(data) ==> cloned(
                        old(self).matches@[final(self).view.skip + final(self).view.index].item.data,
                        data,
                    )
                },
                Key::Char(c) => {
                    &&& final(self).escape == escape_after_char(old(self).escape, c)
                    &&& old(self).escape == Escape::Idle ==> {
                        &&& step is Draw
                        &&& final(self).search_term@ == old(self).search_term@.push(c)
                        &&& final(self).view == old(self).view
                        &&& final(self).is_ranked()
                    }
                    &&& old(self).escape != Escape::Idle ==> final(self).search_term == old(
                        self,
                    ).search_term
                    &&& old(self).escape == Escape::Started ==> {
                        &&& final(self).view == old(self).view
                        &&& final(self).matches == old(self).matches
                        &&& if c == '[' {
                            step is Wait
                        } else {
                            step is Keep
                        }
                    }
                    &&& old(self).escape == Escape::Bracket ==> {
                        if c == 'A' {
                            step is Draw && final(self).is_ranked() && final(self).view == old(
                                self,
                            ).view.after_up()
                        } else if c == 'B' {
                            step is Draw && final(self).view == old(self).view.after_down()
                                && final(self).is_ranked()
                        } else {
                            step is Keep && final(self).view == old(self).view && final(self).matches
                                == old(self).matches
                        }
                    }
                },
                Key::Ctrl(c) => {
                    &&& *final(self) == *old(self)
                    &&& if c == 'c' || c == 'd' {
                        step is Cancel
                    } else {
                        step is Keep
                    }
                },
                Key::Esc => {
                    &&& step is Keep
                    &&& final(self).view == old(self).view
                    &&& final(self).matches == old(self).matches
                    &&& final(self).search_term == old(self).search_term
                    &&& final(self).escape == (if old(self).escape == Escape::Idle {
                        Escape::Started
                    } else {
                        old(self).escape
                    })
                },
                Key::Backspace => {
                    &&& step is Draw
                    &&& final(self).is_ranked()
                    &&& final(self).search_term@ == without_last(old(self).search_term@)
                    &&& final(self).view == old(self).view
                    &&& final(self).escape == old(self).escape
                },
                Key::Other => step is Keep && *final(self) == *old(self),
            },
    {
        match key {
            Key::Ctrl(c) => {
                if c == 'c' || c == 'd' {
                    Step::Cancel
                } else {
                    Step::Keep
                }
            },
            Key::Char(c) => {
                if c == '\n' {
                    match self.confirm() {
                        Some(data) => Step::Chosen(data),
                        None => Step::Cancel,
                    }
                } else {
                    match self.escape {
                        Escape::Idle => {
                            self.append(c);
                            Step::Draw
                        },
                        Escape::Started => {
                            if c == '[' {
                                self.escape = Escape::Bracket;
                                Step::Wait
                            } else {
                                self.escape = Escape::Idle;
                                Step::Keep
                            }
                        },
                        Escape::Bracket => {
                            self.escape = Escape::Idle;
                            if c == 'A' {
                                self.up();
                                Step::Draw
                            } else if c == 'B' {
                                self.down();
                                Step::Draw
                            } else {
                                Step::Keep
                            }
                        },
                    }
                }
            },
            Key::Esc => {
                match self.escape {
                    Escape::Idle => {
                        self.escape = Escape::Started;
                    },
                    _ => {},
                }
                Step::Keep
            },
            Key::Backspace => {
                self.backspace();
                Step::Draw
            },
            Key::Other => Step::Keep,
        }
    }
}

} // verus!
