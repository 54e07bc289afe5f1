//! `aquarius` is a lightweight load generator for http/2 servers.
//!
//! The verified core lives here: the clock model, the snapshot grid, the summary of
//! worker reports, the pacing rules of the job generator, the FIFO of in-flight
//! workers, server addresses and the building of reports.

pub mod time;
pub mod snapshots;
pub mod error;
pub mod report;
pub mod summary;
pub mod generator;
pub mod address;
pub mod syndicate;

pub use self::{
    error::Error,
    report::Report,
    summary::Summary,
    syndicate::Syndicate,
};
