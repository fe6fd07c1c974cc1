//! Clipboard history: the entries, the rules that keep the history, and the
//! text and image handling around them, with their contracts.
pub mod domain;
pub mod text;
pub mod hashing;
pub mod history;
pub mod application;
pub mod clipboard;
pub mod platform;
pub mod settings;
pub mod autostart;
pub mod shortcut;
pub mod preview;
pub mod ui;
pub mod migration;
