//! Verified core of a CAN bus message database browser.
pub mod text;
pub mod yaml;
pub mod bus;
pub mod config;
pub mod app;
pub mod layout;
