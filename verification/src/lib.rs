//! Emulator of the Colorado Time Systems CTS6 timing console.

pub mod app;
pub mod cli;
pub mod clock;
pub mod command;
pub mod event;
pub mod keys;
pub mod lineups;
pub mod listing;
pub mod notation;
pub mod order;
pub mod output;
pub mod popups;
pub mod protocol;
pub mod race;
pub mod repl;
pub mod running;
pub mod scoreboard;
pub mod screen;
pub mod server;
pub mod slots;
pub mod state;
pub mod text;
pub mod tree;
pub mod tui;
