//! Priority-management daemon core: rule schema and presets, rule
//! resolution, game detection, `/proc` parsing, cgroup planning, config
//! sync state, and the small text formats the daemon and GUI exchange.

pub mod text;
pub mod common;
pub mod proc_scan;
pub mod game_detect;
pub mod rules;
pub mod known_games;
pub mod paths;
pub mod applier;
pub mod sync;
pub mod config;
pub mod daemon;
pub mod cli;
pub mod setup;
pub mod apps;
pub mod theme;
pub mod settings;
pub mod gui;
