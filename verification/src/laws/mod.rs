//! What holds across the steps of an operation, and from one operation to the next.

pub mod agreement;
pub mod ancestry;
pub mod attempts;
pub mod checks;
pub mod conflicts;
pub mod matching;
pub mod overwriting;
pub mod progress;
pub mod removal;
pub mod row_delta;
pub mod selections;
pub mod writing;
