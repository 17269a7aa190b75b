//! The settings of a connection. All durations are in milliseconds.

use vstd::prelude::*;

verus! {

/// The number of commands per pawn that are kept for replay and resend.
pub const COMMAND_HISTORY_SIZE: usize = 64;

/// Contains Config properties which will be used by a Server or Client
#[derive(Clone, Copy, PartialEq, Eq, Debug, Structural)]
pub struct ServerConfig {
    /// The duration between the resend of certain connection handshake
    /// messages
    pub send_handshake_interval: u64,
    /// The duration to wait for communication from a remote host before
    /// initiating a disconnect
    pub disconnection_timeout_duration: u64,
    /// The duration to wait before sending a heartbeat message to a remote
    /// host, if the host has not already sent another message within that
    /// time.
    pub heartbeat_interval: u64,
    /// The duration to wait before sending a ping message to the remote
    /// host, in order to estimate RTT time
    pub ping_interval: u64,
    /// Number of samples to measure RTT & Jitter by. A higher number will
    /// smooth out RTT measurements, but at the cost of responsiveness.
    pub rtt_sample_size: u16,
    /// The length of one tick.
    pub tick_duration: u64,
}

/// The default settings.
pub open spec fn default_config() -> ServerConfig {
    ServerConfig {
        send_handshake_interval: 1000,
        disconnection_timeout_duration: 10000,
        heartbeat_interval: 4000,
        ping_interval: 1000,
        rtt_sample_size: 20,
        tick_duration: 50,
    }
}

/// Every interval is positive and the sample size is at least one.
pub open spec fn valid_config(c: ServerConfig) -> bool {
    &&& c.send_handshake_interval > 0
    &&& c.disconnection_timeout_duration > 0
    &&& c.heartbeat_interval > 0
    &&& c.ping_interval > 0
    &&& c.rtt_sample_size > 0
    &&& c.tick_duration > 0
}

impl Default for ServerConfig {
    fn default() -> (c: Self)
        ensures
            c == default_config(),
            valid_config(c),
    {
        ServerConfig {
            send_handshake_interval: 1000,
            disconnection_timeout_duration: 10000,
            heartbeat_interval: 4000,
            ping_interval: 1000,
            rtt_sample_size: 20,
            tick_duration: 50,
        }
    }
}

impl ServerConfig {
    /// Whether the settings can be used: construction of a connection fails
    /// on a zero interval or sample size.
    pub fn is_valid(&self) -> (b: bool)
        ensures
            b == valid_config(*self),
    {
        self.send_handshake_interval > 0 && self.disconnection_timeout_duration > 0
            && self.heartbeat_interval > 0 && self.ping_interval > 0 && self.rtt_sample_size > 0
            && self.tick_duration > 0
    }
}

} // verus!
