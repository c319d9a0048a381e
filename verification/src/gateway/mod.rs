//! The NeXT AI gateway: its configuration, its model catalog, the places where
//! its files are, and the process that runs it.

pub mod catalog;
pub mod config;
pub mod origin;
pub mod paths;
pub mod readiness;
pub mod service;
pub mod startup;
