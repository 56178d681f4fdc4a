//! Dining philosophers: a table of five seats and five forks on real locks,
//! whose contracts name the locks each seating holds and whose seat choice is
//! made by a verified function over the probe results; a resource model of the
//! same protocol, in which seat accounting, fork exclusion and deadlock
//! freedom are proved (the running table does not update it); the
//! bookkeeping of the worker pool; and the small searches (text lines, queens
//! on a board) that such a pool runs as jobs.

pub mod locks;
pub mod seating;
pub mod table;
pub mod board;
pub mod worker;
pub mod search;
