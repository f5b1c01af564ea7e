//! Verified core of the PunkGo kernel.
pub mod action;
pub mod audit;
pub mod actor;
pub mod actor_store;
pub mod blob;
pub mod boundary;
pub mod cli;
pub mod clock;
pub mod consent;
pub mod daemon;
pub mod digest;
pub mod energy;
pub mod envelope_store;
pub mod errors;
pub mod event_log;
pub mod hex;
pub mod json;
pub mod kernel;
pub mod lifecycle;
pub mod ledger;
pub mod policy;
pub mod protocol;
pub mod requests;
pub mod sandbox;
pub mod signing;
pub mod state;
pub mod stellar;
pub mod testkit;
pub mod text;
