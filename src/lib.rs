//! Local companion library for turning repository change sets into
//! reversible file mutations: diff extraction, content fingerprints,
//! selection parsing, and an apply / revert ledger.

pub mod api;
pub mod args;
pub mod clock;
pub mod config;
pub mod diff;
pub mod fingerprint;
pub mod hook;
pub mod hush;
pub mod language;
pub mod ledger;
pub mod project;
pub mod scan;
pub mod selection;
pub mod stream;
pub mod text;
pub mod watch;
