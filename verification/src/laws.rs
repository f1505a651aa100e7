//! What holds of trees, and of the operations on them, as a whole.

pub mod edits;
pub mod lookup;
pub mod sameness;
pub mod text;
pub mod walks;
