//! One connection of an agent: what becomes of what was read from it.

use vstd::prelude::*;
use crate::client::{record_after, ClientAddr, LivenessTable};
use crate::control::offer;
use crate::measurement::Measurement;
use crate::time::Timestamp;

verus! {

/// What reading a connection to its end gave.
#[derive(Debug, Clone, PartialEq, Eq)]
pub enum Received {
    /// Reading failed on the network.
    ReadFailed,
    /// The bytes are not a measurement.
    Malformed,
    /// The bytes are this measurement.
    Packet(Measurement),
}

/// How a connection ended. None of these ends the server.
#[derive(Debug, Clone, Copy, PartialEq, Eq, Structural)]
pub enum HandlerReport {
    /// The measurement is on the save worker's queue.
    Enqueued,
    /// Reading failed; nothing was enqueued and no record was touched.
    ReadError,
    /// The payload was malformed; nothing was enqueued.
    MalformedPayload,
    /// The save worker no longer takes measurements; this one is lost.
    QueueClosed,
}

/// The report on a connection; `accepted` tells whether the queue took the
/// measurement, and matters for a packet only.
pub open spec fn report_of(received: Received, accepted: bool) -> HandlerReport {
    match received {
        Received::ReadFailed => HandlerReport::ReadError,
        Received::Malformed => HandlerReport::MalformedPayload,
        Received::Packet(_) => if accepted {
            HandlerReport::Enqueued
        } else {
            HandlerReport::QueueClosed
        },
    }
}

/// The liveness table after a connection from `addr` that ended at `now`: the
/// sender's record is noted whenever the connection was read to its end, whether or
/// not the payload was a measurement.
pub open spec fn table_after(
    table: Map<ClientAddr, crate::client::ClientMetadata>,
    received: Received,
    addr: ClientAddr,
    now: Timestamp,
) -> Map<ClientAddr, crate::client::ClientMetadata> {
    match received {
        Received::ReadFailed => table,
        _ => table.insert(addr, record_after(table, addr, now)),
    }
}

/// The report for a packet, once the queue has answered.
pub fn packet_report(accepted: bool) -> (r: HandlerReport)
    ensures
        r == if accepted {
            HandlerReport::Enqueued
        } else {
            HandlerReport::QueueClosed
        },
{
    if accepted {
        HandlerReport::Enqueued
    } else {
        HandlerReport::QueueClosed
    }
}

/// Deals with what one connection gave: offers a measurement to the save worker's
/// queue, and notes in the liveness table that `addr` was heard of at `now`.
pub fn handle_received(
    received: Received,
    addr: ClientAddr,
    queue: &tokio::sync::mpsc::UnboundedSender<Measurement>,
    table: &mut LivenessTable,
    now: Timestamp,
) -> (r: HandlerReport)
    ensures
        final(table)@ == table_after(old(table)@, received, addr, now),
        exists|accepted: bool| r == report_of(received, accepted),
        !(received is Packet) ==> r == report_of(received, true),
{
    match received {
        Received::ReadFailed => {
            assert(HandlerReport::ReadError == report_of(received, true));
            HandlerReport::ReadError
        },
        Received::Malformed => {
            table.record(addr, now);
            assert(HandlerReport::MalformedPayload == report_of(received, true));
            HandlerReport::MalformedPayload
        },
        Received::Packet(m) => {
            let accepted = offer(queue, m);
            table.record(addr, now);
            let r = packet_report(accepted);
            assert(r == report_of(received, accepted));
            r
        },
    }
}

} // verus!
