//! A memo store: timestamped one-line notes kept in a map from identifier to
//! entry, with a line-oriented text form that the store is read from and
//! written to.

pub mod app;
pub mod commands;
pub mod data;
pub mod date_time;
pub mod impls;
pub mod laws;
pub mod models;
pub mod style;
pub mod text;
