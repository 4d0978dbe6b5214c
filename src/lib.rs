//! Relays chat text into synthesized speech: text normalization, pronunciation
//! dictionary synchronization and per-session playback bookkeeping.

pub mod commands;
pub mod config;
pub mod dictionary;
pub mod engine;
pub mod error;
pub mod listing;
pub mod playback;
pub mod sync;
pub mod text;
