pub mod text;
pub mod bms;
pub mod events;
pub mod emitter;
pub mod input;
pub mod app_core;
pub mod game;
pub mod chart;
pub mod key_log;
