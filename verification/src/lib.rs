//! Parsing and state logic of a macOS power monitor.
pub mod text;
pub mod number;
pub mod power;
pub mod actions;
pub mod app;
pub mod controls;
pub mod display;
