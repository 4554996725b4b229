//! Verified core of the DeckLock lock screen: session authorization, media
//! selection, input models and the small text formats the locker reads.
pub mod animation;
pub mod auth;
mod clock;
pub mod config;
pub mod config_cli;
pub mod controller;
pub mod document;
pub mod entry;
pub mod faillock;
pub mod greetd;
pub mod greeter;
pub mod i18n;
pub mod keyboard;
pub mod library;
pub mod lock;
pub mod paths;
pub mod preview_stats;
pub mod procedural;
pub mod session;
pub mod setup;
pub mod shortcut;
pub mod text;
pub mod themes;
