//! State of the terminal interface and its key handling.

pub mod app;
pub mod view;
