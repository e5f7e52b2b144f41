//! A terminal call-note log: a multi-line text editor over UTF-8 lines,
//! call records, and the key-driven state machine that ties them together.
pub mod text;
pub mod editor;
pub mod calls;
pub mod theme;
pub mod app;
pub mod layout;
pub mod laws;
