//! Admission of connections.

use crate::config::Config;
use crate::number::{decimal_text, to_decimal};
use crate::text::concat;
use vstd::prelude::*;

verus! {

/// What happens to the connections of a server.
#[derive(Debug, Clone, Copy, PartialEq, Eq, Structural)]
pub enum ServerEvent {
    /// A connection comes in.
    Arrival,
    /// A connection that was accepted ends, in whatever way.
    End,
}

/// How many connections are open after an event: one that comes in takes a
/// place if there is one, and one that ends frees its place.
pub open spec fn live_after(limit: nat, live: nat, event: ServerEvent) -> nat {
    match event {
        ServerEvent::Arrival => if live < limit {
            live + 1
        } else {
            live
        },
        ServerEvent::End => if live > 0 {
            (live - 1) as nat
        } else {
            0
        },
    }
}

/// How many connections are open after some events.
pub open spec fn live_over(limit: nat, live: nat, events: Seq<ServerEvent>) -> nat
    decreases events.len(),
{
    if events.len() == 0 {
        live
    } else {
        live_after(limit, live_over(limit, live, events.drop_last()), events.last())
    }
}

/// How many of the connections that came in were accepted.
pub open spec fn accepted_over(limit: nat, live: nat, events: Seq<ServerEvent>) -> nat
    decreases events.len(),
{
    if events.len() == 0 {
        0
    } else {
        let before = accepted_over(limit, live, events.drop_last());
        if events.last() is Arrival && live_over(limit, live, events.drop_last()) < limit {
            before + 1
        } else {
            before
        }
    }
}

/// How many connections ended.
pub open spec fn ended_over(events: Seq<ServerEvent>) -> nat
    decreases events.len(),
{
    if events.len() == 0 {
        0
    } else if events.last() is End {
        ended_over(events.drop_last()) + 1
    } else {
        ended_over(events.drop_last())
    }
}

/// Only connections that are open end.
pub open spec fn is_run(limit: nat, live: nat, events: Seq<ServerEvent>) -> bool
    decreases events.len(),
{
    events.len() > 0 ==> {
        &&& is_run(limit, live, events.drop_last())
        &&& events.last() is End ==> live_over(limit, live, events.drop_last()) > 0
    }
}

/// Over any run of arrivals and ends there are never more connections open than
/// the limit allows, and those that are open are those that were accepted and
/// have not ended: a refused connection takes no place, and each end frees one.
pub proof fn lemma_limit_holds_over_run(limit: nat, live: nat, events: Seq<ServerEvent>)
    requires
        live <= limit,
        is_run(limit, live, events),
    ensures
        live_over(limit, live, events) <= limit,
        live_over(limit, live, events) + ended_over(events) == live + accepted_over(
            limit,
            live,
            events,
        ),
    decreases events.len(),
{
    if events.len() > 0 {
        lemma_limit_holds_over_run(limit, live, events.drop_last());
    }
}

/// A DoIP TCP server's decisions on connections.
pub struct DoIpServer {
    bind_address: String,
    doip_port: u16,
    max_connections: usize,
    /// Connections that were accepted and have not ended.
    active_connections: usize,
}

impl DoIpServer {
    /// The address that the server listens on.
    pub closed spec fn address(&self) -> Seq<char> {
        self.bind_address@ + ":"@ + decimal_text(self.doip_port as nat)
    }

    /// How many connections the server serves at a time.
    pub closed spec fn limit(&self) -> nat {
        self.max_connections as nat
    }

    /// How many connections are open.
    pub closed spec fn live(&self) -> nat {
        self.active_connections as nat
    }

    #[verifier::type_invariant]
    closed spec fn within_limit(self) -> bool {
        self.active_connections <= self.max_connections
    }

    /// Create a DoIP server with a configuration. No connection is open.
    pub fn new(config: &Config) -> (server: Self)
        ensures
            server.address() == config@.server.bind_address + ":"@ + decimal_text(
                config@.server.doip_port as nat,
            ),
            server.limit() == config@.server.max_connections,
            server.live() == 0,
    {
        DoIpServer {
            bind_address: config.server.bind_address.clone(),
            doip_port: config.server.doip_port,
            max_connections: config.server.max_connections,
            active_connections: 0,
        }
    }

    /// The address to listen on, as `address:port`.
    pub fn listen_address(&self) -> (address: String)
        ensures
            address@ == self.address(),
    {
        let mut address = concat(self.bind_address.as_str(), ":");
        address.append(to_decimal(self.doip_port as u64).as_str());
        address
    }

    /// How many connections are open.
    pub fn active(&self) -> (count: usize)
        ensures
            count == self.live(),
            count <= self.limit(),
    {
        proof {
            use_type_invariant(self);
        }
        self.active_connections
    }

    /// Decide on a connection that came in.
    ///
    /// Returns the number of open connections if it is accepted. Returns
    /// `None` if the limit is reached; the connection then takes no place.
    pub fn accept(&mut self) -> (now: Option<usize>)
        ensures
            match now {
                Some(count) => old(self).live() < old(self).limit() && count == final(self).live(),
                None => old(self).live() >= old(self).limit(),
            },
            final(self).live() == live_after(
                old(self).limit(),
                old(self).live(),
                ServerEvent::Arrival,
            ),
            final(self).limit() == old(self).limit(),
            final(self).address() == old(self).address(),
    {
        proof {
            use_type_invariant(&*self);
        }
        if self.active_connections >= self.max_connections {
            None
        } else {
            self.active_connections = self.active_connections + 1;
            Some(self.active_connections)
        }
    }

    /// Free the place of an accepted connection that ended.
    pub fn release(&mut self)
        requires
            old(self).live() > 0,
        ensures
            final(self).live() == live_after(
                old(self).limit(),
                old(self).live(),
                ServerEvent::End,
            ),
            final(self).limit() == old(self).limit(),
            final(self).address() == old(self).address(),
    {
        proof {
            use_type_invariant(&*self);
        }
        self.active_connections = self.active_connections - 1;
    }
}

} // verus!
