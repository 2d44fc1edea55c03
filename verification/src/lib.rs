//! Process-execution interception support for a build-observation tool.
//!
//! Intercepted child processes report their invocation (executable, arguments,
//! working directory, environment) to a local collector.  This crate holds the
//! verified core of that subsystem: the event and envelope data model, a
//! lossless byte codec for envelopes, the reporter/collector capability
//! contracts, the collector service shutdown protocol, and the environment
//! overlay computation (search-path insertion, exit-code mapping) used to run
//! a build command under interception.
//!
//! The unverifiable edges — sockets, threads, temporary directories, process
//! supervision — live outside this crate and hand plain values in and out.

pub mod codec;
pub mod display;
pub mod intercept;
pub mod model;
pub mod service;
