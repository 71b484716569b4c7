//! Library for dunsumday, an application for tracking completion of regular
//! tasks.
//!
//! The verified core covers calendar rules, schedule expansion, occurrence
//! generation and selection, configuration resolution and progress donation.
pub mod types;
pub mod util;
pub mod db;
pub mod config;
pub mod web;
