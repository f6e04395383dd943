//! Aggregate broker counters, answered over the cache interface.

use vstd::prelude::*;

verus! {

/// Broker-wide counters: sessions, subscriptions, retained messages and
/// traffic, with the uptime in seconds.  Counters saturate rather than
/// wrap.
#[derive(Debug, Default, Clone, Copy, PartialEq, Eq, Structural)]
pub struct Metrics {
    /// Live sessions.
    pub session_count: u64,
    /// Subscription-table entries.
    pub subscription_count: u64,
    /// Retained-store entries.
    pub retained_count: u64,
    /// Bytes received over all listeners.
    pub bytes_in: u64,
    /// Bytes sent over all listeners.
    pub bytes_out: u64,
    /// Seconds since the broker started.
    pub uptime: u64,
}

impl Metrics {
    /// All counters at zero.
    pub fn new() -> (r: Metrics)
        ensures
            r == (Metrics {
                session_count: 0,
                subscription_count: 0,
                retained_count: 0,
                bytes_in: 0,
                bytes_out: 0,
                uptime: 0,
            }),
    {
        Metrics {
            session_count: 0,
            subscription_count: 0,
            retained_count: 0,
            bytes_in: 0,
            bytes_out: 0,
            uptime: 0,
        }
    }

    /// Count bytes received; the counter saturates at its maximum.
    pub fn add_bytes_in(&mut self, n: u64)
        ensures
            final(self).bytes_in == (if old(self).bytes_in + n <= u64::MAX {
                (old(self).bytes_in + n) as u64
            } else {
                u64::MAX
            }),
            final(self).bytes_out == old(self).bytes_out,
            final(self).session_count == old(self).session_count,
            final(self).uptime == old(self).uptime,
    {
        if self.bytes_in <= u64::MAX - n {
            self.bytes_in = self.bytes_in + n;
        } else {
            self.bytes_in = u64::MAX;
        }
    }

    /// Count bytes sent; the counter saturates at its maximum.
    pub fn add_bytes_out(&mut self, n: u64)
        ensures
            final(self).bytes_out == (if old(self).bytes_out + n <= u64::MAX {
                (old(self).bytes_out + n) as u64
            } else {
                u64::MAX
            }),
            final(self).bytes_in == old(self).bytes_in,
            final(self).session_count == old(self).session_count,
            final(self).uptime == old(self).uptime,
    {
        if self.bytes_out <= u64::MAX - n {
            self.bytes_out = self.bytes_out + n;
        } else {
            self.bytes_out = u64::MAX;
        }
    }

    /// Answer an uptime query given the clock's seconds now and at start.
    pub fn set_uptime(&mut self, now: u64, started: u64)
        requires
            started <= now,
        ensures
            final(self).uptime == now - started,
            final(self).bytes_in == old(self).bytes_in,
            final(self).bytes_out == old(self).bytes_out,
            final(self).session_count == old(self).session_count,
    {
        self.uptime = now - started;
    }
}

} // verus!
