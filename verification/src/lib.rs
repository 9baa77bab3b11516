//! Monthly traffic invoices: from the samples of a LibreNMS bill to a confirmed PDF.
//!
//! The crate holds the rules. What reads files, talks to the database or the network, or
//! computes with floating point stands in the program around it and hands plain values in.
pub mod archive;
pub mod billing;
pub mod chart;
pub mod cli;
pub mod config;
pub mod dates;
pub mod domain;
pub mod error;
pub mod librenms;
pub mod recall;
pub mod render;
pub mod runner;
pub mod store;
pub mod template;
pub mod text;

pub use crate::cli::VERSION;
pub use crate::error::{Error, Result};
