//! Per-session limits and timers, fixed at CONNECT time.

use vstd::prelude::*;

verus! {

/// Limits and timers one session runs under; intervals are in seconds.
#[derive(Debug, Clone, Copy, PartialEq, Eq, Structural)]
pub struct SessionConfig {
    keep_alive: u64,
    connect_timeout: u64,
    maximum_inflight_messages: usize,
    maximum_packet_size: usize,
    allow_empty_client_id: bool,
}

impl SessionConfig {
    /// The keep-alive interval in seconds.
    pub closed spec fn spec_keep_alive(&self) -> u64 {
        self.keep_alive
    }

    /// The connect timeout in seconds.
    pub closed spec fn spec_connect_timeout(&self) -> u64 {
        self.connect_timeout
    }

    /// How many unacknowledged outbound messages a session may hold.
    pub closed spec fn spec_maximum_inflight_messages(&self) -> usize {
        self.maximum_inflight_messages
    }

    /// The largest packet a session accepts.
    pub closed spec fn spec_maximum_packet_size(&self) -> usize {
        self.maximum_packet_size
    }

    /// Whether a CONNECT without a client identifier is accepted.
    pub closed spec fn spec_allow_empty_client_id(&self) -> bool {
        self.allow_empty_client_id
    }

    /// The default limits: ten-second timers, ten inflight messages.
    pub fn new() -> (r: Self)
        ensures
            r.spec_keep_alive() == 10,
            r.spec_connect_timeout() == 10,
            r.spec_maximum_inflight_messages() == 10,
            r.spec_maximum_packet_size() == 10,
            !r.spec_allow_empty_client_id(),
    {
        SessionConfig {
            keep_alive: 10,
            connect_timeout: 10,
            maximum_inflight_messages: 10,
            maximum_packet_size: 10,
            allow_empty_client_id: false,
        }
    }

    /// Set the keep-alive interval in seconds.
    pub fn set_keep_alive(&mut self, keep_alive: u32)
        ensures
            final(self).spec_keep_alive() == keep_alive,
            final(self).spec_connect_timeout() == old(self).spec_connect_timeout(),
            final(self).spec_maximum_inflight_messages() == old(
                self,
            ).spec_maximum_inflight_messages(),
            final(self).spec_maximum_packet_size() == old(self).spec_maximum_packet_size(),
            final(self).spec_allow_empty_client_id() == old(self).spec_allow_empty_client_id(),
    {
        self.keep_alive = keep_alive as u64;
    }

    /// The keep-alive interval in seconds.
    pub fn keep_alive(&self) -> (r: u64)
        ensures
            r == self.spec_keep_alive(),
    {
        self.keep_alive
    }

    /// Set the connect timeout in seconds.
    pub fn set_connect_timeout(&mut self, connect_timeout: u32)
        ensures
            final(self).spec_connect_timeout() == connect_timeout,
            final(self).spec_keep_alive() == old(self).spec_keep_alive(),
            final(self).spec_maximum_inflight_messages() == old(
                self,
            ).spec_maximum_inflight_messages(),
            final(self).spec_maximum_packet_size() == old(self).spec_maximum_packet_size(),
            final(self).spec_allow_empty_client_id() == old(self).spec_allow_empty_client_id(),
    {
        self.connect_timeout = connect_timeout as u64;
    }

    /// The connect timeout in seconds.
    pub fn connect_timeout(&self) -> (r: u64)
        ensures
            r == self.spec_connect_timeout(),
    {
        self.connect_timeout
    }

    /// Set how many unacknowledged outbound messages a session may hold.
    pub fn set_maximum_inflight_messages(&mut self, maximum_inflight_messages: u32)
        ensures
            final(self).spec_maximum_inflight_messages() == maximum_inflight_messages,
            final(self).spec_keep_alive() == old(self).spec_keep_alive(),
            final(self).spec_connect_timeout() == old(self).spec_connect_timeout(),
            final(self).spec_maximum_packet_size() == old(self).spec_maximum_packet_size(),
            final(self).spec_allow_empty_client_id() == old(self).spec_allow_empty_client_id(),
    {
        self.maximum_inflight_messages = maximum_inflight_messages as usize;
    }

    /// How many unacknowledged outbound messages a session may hold.
    pub fn maximum_inflight_messages(&self) -> (r: usize)
        ensures
            r == self.spec_maximum_inflight_messages(),
    {
        self.maximum_inflight_messages
    }

    /// Set the largest packet a session accepts.
    pub fn set_maximum_packet_size(&mut self, maximum_packet_size: u32)
        ensures
            final(self).spec_maximum_packet_size() == maximum_packet_size,
            final(self).spec_keep_alive() == old(self).spec_keep_alive(),
            final(self).spec_connect_timeout() == old(self).spec_connect_timeout(),
            final(self).spec_maximum_inflight_messages() == old(
                self,
            ).spec_maximum_inflight_messages(),
            final(self).spec_allow_empty_client_id() == old(self).spec_allow_empty_client_id(),
    {
        self.maximum_packet_size = maximum_packet_size as usize;
    }

    /// The largest packet a session accepts.
    pub fn maximum_packet_size(&self) -> (r: usize)
        ensures
            r == self.spec_maximum_packet_size(),
    {
        self.maximum_packet_size
    }

    /// Set whether a CONNECT without a client identifier is accepted.
    pub fn set_allow_empty_client_id(&mut self, allow_empty_client_id: bool)
        ensures
            final(self).spec_allow_empty_client_id() == allow_empty_client_id,
            final(self).spec_keep_alive() == old(self).spec_keep_alive(),
            final(self).spec_connect_timeout() == old(self).spec_connect_timeout(),
            final(self).spec_maximum_inflight_messages() == old(
                self,
            ).spec_maximum_inflight_messages(),
            final(self).spec_maximum_packet_size() == old(self).spec_maximum_packet_size(),
    {
        self.allow_empty_client_id = allow_empty_client_id;
    }

    /// Whether a CONNECT without a client identifier is accepted.
    pub fn allow_empty_client_id(&self) -> (r: bool)
        ensures
            r == self.spec_allow_empty_client_id(),
    {
        self.allow_empty_client_id
    }
}

impl Default for SessionConfig {
    fn default() -> (r: Self)
        ensures
            r.spec_keep_alive() == 10,
            r.spec_connect_timeout() == 10,
            r.spec_maximum_inflight_messages() == 10,
            r.spec_maximum_packet_size() == 10,
            !r.spec_allow_empty_client_id(),
    {
        SessionConfig::new()
    }
}

} // verus!
