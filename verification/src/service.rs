//! The reporter and collector capability contracts, the error taxonomy, and
//! the collector service shutdown protocol.
//!
//! The collector service owns a collector, a network worker thread running
//! its ingestion loop, and a processing worker thread running caller-supplied
//! consumer logic, joined by a single-producer/single-consumer ordered
//! channel.  The threads themselves live with the caller; what is verified
//! here is the fixed order of the shutdown steps.

use vstd::prelude::*;
use crate::model::{Envelope, Event};

verus! {

/// Why an intercept operation failed.
#[derive(Clone, Debug, PartialEq)]
pub enum InterceptError {
    /// The intercept environment could not be prepared (temporary directory,
    /// hard links); the build must not proceed.
    Configuration(String),
    /// Bind, accept or read failed in the collector; the network worker
    /// terminates early, and the processing worker drains what is buffered
    /// and exits normally on channel closure.
    Transport(String),
    /// The caller-supplied consumer logic failed; the network worker is
    /// unaffected.
    Processing(String),
    /// The build command could not be started at all — distinct from any
    /// exit code, which is a normal outcome.
    ProcessSpawn(String),
    /// Stopping the collector or joining a worker failed; fatal to the
    /// shutdown path.
    Shutdown(String),
}

/// Remote sink of supervised process events.
///
/// An intercepted process calls this once near its start, before handing
/// control to the real target executable, to transmit one envelope to the
/// collector's published address.  Reporting is best-effort: a failure must
/// never prevent the intercepted program itself from running.
pub trait Reporter {
    fn report(&self, event: Event) -> Result<(), InterceptError>;
}

/// Consumer of envelopes, one at a time, in the order handed over.
pub trait EnvelopeSink {
    fn accept(&mut self, envelope: Envelope) -> Result<(), InterceptError>;
}

/// Local sink of supervised process events: the capability contract for the
/// wire-level collector implementation.
pub trait Collector {
    /// A connectable endpoint descriptor.  Binding happens when the collector
    /// is constructed, not when ingestion starts, so the address is
    /// connectable immediately after construction and no reporter can race
    /// the listener.
    fn address(&self) -> String;

    /// Blocks, accepting envelopes from any number of reporter connections
    /// and forwarding each to `destination` in the order received per
    /// connection (no ordering across distinct connections).  Returns only
    /// after [`Self::stop`] was invoked from another thread, or on an
    /// unrecoverable I/O failure, surfaced as [`InterceptError::Transport`].
    fn collect<S: EnvelopeSink>(&self, destination: &mut S) -> Result<(), InterceptError>;

    /// Idempotent; unblocks a concurrently running [`Self::collect`] within
    /// bounded latency whether or not further connections arrive.
    fn stop(&self) -> Result<(), InterceptError>;
}

/// One step of the collector service shutdown.
#[derive(Clone, Copy, Debug, PartialEq, Eq, Structural)]
pub enum ShutdownAction {
    /// Ask the collector to stop accepting; its ingestion loop returns.
    StopCollector,
    /// Join the network worker, fully retiring the channel's sending side.
    JoinNetworkWorker,
    /// Join the processing worker, whose receive loop ends on channel
    /// closure.
    JoinProcessingWorker,
}

/// The shutdown protocol: stop the collector first, then join the network
/// worker, then the processing worker, in exactly that order.  Joining the
/// network worker before the processing worker guarantees the channel's
/// sending side is retired before the processing worker's receive loop is
/// expected to observe closure and terminate — the processing loop consumes
/// until the channel closes, not until it is told to stop.
pub fn shutdown_plan() -> (plan: Vec<ShutdownAction>)
    ensures
        plan@ == seq![
            ShutdownAction::StopCollector,
            ShutdownAction::JoinNetworkWorker,
            ShutdownAction::JoinProcessingWorker,
        ],
{
    let mut plan: Vec<ShutdownAction> = Vec::new();
    plan.push(ShutdownAction::StopCollector);
    plan.push(ShutdownAction::JoinNetworkWorker);
    plan.push(ShutdownAction::JoinProcessingWorker);
    proof {
        assert(plan@ =~= seq![
            ShutdownAction::StopCollector,
            ShutdownAction::JoinNetworkWorker,
            ShutdownAction::JoinProcessingWorker,
        ]);
    }
    plan
}

} // verus!
