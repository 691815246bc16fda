//! Client-side core for a log-aggregation service: label-tagged streams of
//! timestamped log lines, a chainable builder that assembles them, the exact
//! JSON wire encoding of the push envelope, and the parser for the
//! service-status listing.

pub mod assoc;
mod clock;
pub mod encode;
pub mod status;
pub mod stream;

pub use status::{ParseError, ServiceStatus, parse_services};
pub use stream::{Builder, Stream, Streams};

use vstd::prelude::*;

verus! {

/// The wall clock reported a time before the Unix epoch while a default
/// timestamp was being resolved.
#[derive(Debug, Clone, Copy, PartialEq, Eq, Structural)]
pub struct ClockError;

/// Build metadata reported by the target service, carried as opaque display
/// strings.
#[derive(Debug, Clone)]
pub struct BuildInfo {
    pub version: String,
    pub revision: String,
    pub branch: String,
    pub build_user: String,
    pub build_date: String,
    pub go_version: String,
}

} // verus!
