//! The entry that the table of outstanding requests keeps per sequence number.
use vstd::prelude::*;

pub use crate::echo_handle::EchoStatus;
use crate::echo_handle::{handle_chars, push_handle_text, spec_micros_between, Instant};
use crate::net::Ipv4Addr;

verus! {

/// One echo request in the table of outstanding requests.
#[derive(Debug, Clone, Copy, PartialEq, Eq, Structural)]
pub struct ConnectionHandle {
    pub destination_ipv4: Ipv4Addr,
    pub seq: u16,
    pub identifier: u16,
    pub earlier: Instant,
    pub now: Instant,
    pub elapsed_micros: u128,
    pub status: EchoStatus,
}

impl ConnectionHandle {
    /// A request to `destination_ipv4` sent at `earlier`, looked at `now`;
    /// the elapsed time is the whole microseconds between the two.
    pub fn new(
        destination_ipv4: Ipv4Addr,
        seq: u16,
        identifier: u16,
        earlier: Instant,
        now: Instant,
        status: EchoStatus,
    ) -> (res: ConnectionHandle)
        ensures
            res == (ConnectionHandle {
                destination_ipv4,
                seq,
                identifier,
                earlier,
                now,
                elapsed_micros: spec_micros_between(earlier, now),
                status,
            }),
    {
        let elapsed_micros = now.micros_since(earlier);
        ConnectionHandle {
            destination_ipv4,
            seq,
            identifier,
            earlier,
            now,
            elapsed_micros,
            status,
        }
    }

    /// The same request, answered at `now`.
    pub fn to_received(self, now: Instant) -> (res: ConnectionHandle)
        ensures
            res == (ConnectionHandle {
                now,
                elapsed_micros: spec_micros_between(self.earlier, now),
                status: EchoStatus::Received,
                ..self
            }),
    {
        ConnectionHandle::new(
            self.destination_ipv4,
            self.seq,
            self.identifier,
            self.earlier,
            now,
            EchoStatus::Received,
        )
    }

    /// The text form `address,seq,elapsed - status`.
    pub fn to_display_string(&self) -> (res: String)
        ensures
            res@ == handle_chars(self.destination_ipv4, self.seq, self.elapsed_micros, self.status),
    {
        let mut s = String::new();
        push_handle_text(&mut s, self.destination_ipv4, self.seq, self.elapsed_micros, self.status);
        assert(s@ =~= handle_chars(self.destination_ipv4, self.seq, self.elapsed_micros, self.status));
        s
    }
}

} // verus!
