//! The routing activation state of a connection.

use vstd::prelude::*;

verus! {

/// DoIP routing activation session state.
///
/// Tracks whether a valid routing activation exchange has occurred
/// and stores the source address of the activated tester. Its view is that
/// address, or `None` before activation.
pub struct Session {
    /// `true` after a successful routing activation response.
    routing_activated: bool,
    /// Source address of the activated tester, if any.
    source_address: Option<u16>,
}

impl View for Session {
    type V = Option<u16>;

    closed spec fn view(&self) -> Option<u16> {
        self.source_address
    }
}

impl Session {
    #[verifier::type_invariant]
    closed spec fn consistent(self) -> bool {
        self.routing_activated == (self.source_address is Some)
    }

    /// Create a new inactive session.
    pub fn new() -> (session: Self)
        ensures
            session@ is None,
    {
        Session { routing_activated: false, source_address: None }
    }

    /// Activate the session with the given tester source address.
    pub fn activate(&mut self, source_address: u16)
        ensures
            final(self)@ == Some(source_address),
    {
        *self = Session { routing_activated: true, source_address: Some(source_address) };
    }

    /// Returns `true` if routing activation has been completed.
    pub fn is_activated(&self) -> (activated: bool)
        ensures
            activated == (self@ is Some),
    {
        proof {
            use_type_invariant(self);
        }
        self.routing_activated
    }

    /// Returns `true` if the session is activated for the given source address.
    pub fn is_activated_for(&self, source_address: u16) -> (activated: bool)
        ensures
            activated == (self@ == Some(source_address)),
    {
        proof {
            use_type_invariant(self);
        }
        self.routing_activated && match self.source_address {
            Some(address) => address == source_address,
            None => false,
        }
    }

    /// Returns the tester source address, if activated.
    pub fn source_address(&self) -> (address: Option<u16>)
        ensures
            address == self@,
    {
        self.source_address
    }

    /// Reset the session to an inactive state.
    pub fn clear(&mut self)
        ensures
            final(self)@ is None,
    {
        *self = Session { routing_activated: false, source_address: None };
    }
}

impl Default for Session {
    fn default() -> (session: Self)
        ensures
            session@ is None,
    {
        Session::new()
    }
}

} // verus!
