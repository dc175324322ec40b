//! What holds of the grammar on every input.

pub mod encoding;
pub mod forms;
pub mod sources;
pub mod tokens;
pub mod unique;
pub mod words;
