//! Dynamic-DNS reconciliation: finding out this host's public addresses and
//! bringing the records at DNS providers in line with a declared
//! configuration.
//!
//! The library decides and never performs I/O. Whatever needs the network
//! or the clock is asked of a driver as an *action*; the driver carries it
//! out and hands back an *event*. Three such state machines are offered:
//! fetching the public addresses ([`fetcher`]), synchronising one provider
//! ([`provider`]), and a whole pass ([`runner`]). Every function states what
//! it returns as a contract over the mathematical view of its arguments,
//! and the general properties of the machines are proved beside them.

pub mod config;
pub mod error;
pub mod fetcher;
pub mod provider;
pub mod record;
pub mod runner;
pub mod text;
pub mod topology;
pub mod wrapper;
