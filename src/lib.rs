//! The core of a modal terminal editor: a text buffer whose cursor counts
//! characters, and the `Normal`/`Insert` state machine that feeds it key
//! events.
pub mod app;
pub mod editor;
pub mod text;
