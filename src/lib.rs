//! Terminal chat client core: keyboard decoding, window store, screen
//! rendering and command orchestration for a multi-window chat front end.

pub mod app;
pub mod hex;
pub mod input;
pub mod text;
pub mod time;
pub mod ui;
pub mod utils;
pub mod words;
