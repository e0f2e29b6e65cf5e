//! Verified core of a local HTTP/HTTPS proxy for Bangumi sites: target and
//! address matching, hosts and DNS parsing, HTTP request handling decisions,
//! backend and resolver plans, browser launch settings and CA trust steps.

pub mod text;
pub mod ipv4;
pub mod targets;
pub mod dns;
pub mod proxy;
pub mod hosts;
pub mod ech;
pub mod backend;
pub mod browser;
pub mod ca;
pub mod cli;
