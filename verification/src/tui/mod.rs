//! The interview session: question filters, searches, navigation and
//! scoring driven by key presses, and the text the screen shows.

pub mod app;
pub mod cards;
pub mod order;
pub mod state;
pub mod ui;
