//! An interactive fuzzy finder: the items on offer, the ranking of the
//! matches, the window that shows a bounded slice of them, and the session
//! that ties a query to a selection.

pub mod item;
pub mod layout;
pub mod line;
pub mod list;
pub mod rank;
pub mod session;
pub mod view;

pub use session::FuzzyFinder;
