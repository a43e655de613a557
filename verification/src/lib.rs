//! Verified core of a desktop key scheduler.
pub mod autostart;
pub mod commands;
pub mod config;
pub mod engine;
pub mod gui;
pub mod hook;
pub mod hotkey;
pub mod humanizer;
pub mod ico;
pub mod icon;
pub mod icon_gen;
pub mod input;
pub mod logging;
pub mod obfuscate;
pub mod order;
pub mod paths;
mod random;
pub mod session;
pub mod stealth;
pub mod store;
pub mod taskbar;
pub mod text;
pub mod tray;
pub mod window;
