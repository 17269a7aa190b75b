//! The local tick, advanced at a fixed rate, and the estimate of the tick
//! at which the server will apply what the client sends now. Times are in
//! milliseconds.

use crate::ack_manager::elapsed_between;
use crate::sequence::advance;
use vstd::prelude::*;

verus! {

/// The ticks added to the server-tick estimate for safety.
pub const SAFETY_MARGIN: u16 = 1;

/// The abstract state of the tick manager.
pub struct TickView {
    pub tick_duration: u64,
    pub client_tick: u16,
    pub server_tick: u16,
    /// The time at which the current tick began.
    pub tick_began_at: u64,
}

/// The number of ticks by which the server's tick is taken to run ahead of
/// the tick in its header: the ticks that half a round trip and the jitter
/// take, rounded up, and the safety margin.
pub open spec fn server_tick_lead(rtt: u32, jitter: u32, tick_duration: u64) -> int {
    (rtt + 2 * jitter + 2 * tick_duration - 1) / (2 * tick_duration as int) + SAFETY_MARGIN
}

/// The fraction of the current tick that has passed at `now`, in
/// thousandths, at most 1000.
pub open spec fn interpolation_of(s: TickView, now: u64) -> int {
    let elapsed = elapsed_between(s.tick_began_at, now);
    if elapsed >= s.tick_duration {
        1000
    } else {
        (elapsed * 1000) / s.tick_duration as int
    }
}

/// Advances the local tick and estimates the server's.
pub struct TickManager {
    tick_duration: u64,
    client_tick: u16,
    server_tick: u16,
    tick_began_at: u64,
}

impl View for TickManager {
    type V = TickView;

    closed spec fn view(&self) -> TickView {
        TickView {
            tick_duration: self.tick_duration,
            client_tick: self.client_tick,
            server_tick: self.server_tick,
            tick_began_at: self.tick_began_at,
        }
    }
}

impl TickManager {
    /// A tick lasts at least a millisecond and less than an hour.
    pub closed spec fn wf(&self) -> bool {
        0 < self.tick_duration <= 3600000
    }

    /// A manager whose first tick begins at `now`. A duration of zero
    /// counts as one millisecond, one above an hour as an hour.
    pub fn new(tick_duration: u64, now: u64) -> (m: Self)
        ensures
            m.wf(),
            m@ == (TickView {
                tick_duration: if tick_duration == 0 {
                    1
                } else if tick_duration > 3600000 {
                    3600000
                } else {
                    tick_duration
                },
                client_tick: 0,
                server_tick: 0,
                tick_began_at: now,
            }),
    {
        let d = if tick_duration == 0 {
            1
        } else if tick_duration > 3600000 {
            3600000
        } else {
            tick_duration
        };
        TickManager { tick_duration: d, client_tick: 0, server_tick: 0, tick_began_at: now }
    }

    /// Whether a tick interval has been completed at `now`. If so the local
    /// tick and the server-tick estimate move on by one and the next
    /// interval begins where the completed one ended, so that every
    /// completed interval is reported once.
    pub fn mark_frame(&mut self, now: u64) -> (ticked: bool)
        requires
            old(self).wf(),
        ensures
            final(self).wf(),
            ticked == (elapsed_between(old(self)@.tick_began_at, now) >= old(self)@.tick_duration),
            ticked ==> final(self)@ == (TickView {
                client_tick: advance(old(self)@.client_tick, 1),
                server_tick: advance(old(self)@.server_tick, 1),
                tick_began_at: (old(self)@.tick_began_at + old(self)@.tick_duration) as u64,
                ..old(self)@
            }),
            !ticked ==> final(self)@ == old(self)@,
    {
        let elapsed = if now >= self.tick_began_at {
            now - self.tick_began_at
        } else {
            0
        };
        if elapsed >= self.tick_duration {
            self.client_tick = self.client_tick.wrapping_add(1);
            self.server_tick = self.server_tick.wrapping_add(1);
            self.tick_began_at = self.tick_began_at + self.tick_duration;
            true
        } else {
            false
        }
    }

    pub fn get_client_tick(&self) -> (t: u16)
        ensures
            t == self@.client_tick,
    {
        self.client_tick
    }

    pub fn get_server_tick(&self) -> (t: u16)
        ensures
            t == self@.server_tick,
    {
        self.server_tick
    }

    /// Takes the tick of a header from the server, with the measured
    /// round-trip time and jitter in milliseconds, into the estimate.
    pub fn record_server_tick(&mut self, host_tick: u16, rtt: u32, jitter: u32)
        requires
            old(self).wf(),
        ensures
            final(self).wf(),
            final(self)@ == (TickView {
                server_tick: advance(
                    host_tick,
                    server_tick_lead(rtt, jitter, old(self)@.tick_duration) % 65536,
                ),
                ..old(self)@
            }),
    {
        let d: u64 = self.tick_duration;
        let total: u64 = rtt as u64 + 2 * (jitter as u64) + 2 * d - 1;
        let lead: u64 = total / (2 * d) + SAFETY_MARGIN as u64;
        let wrapped: u16 = (lead % 65536) as u16;
        self.server_tick = host_tick.wrapping_add(wrapped);
    }

    /// The fraction of the current tick that has passed, in thousandths.
    pub fn interpolation(&self, now: u64) -> (f: u16)
        requires
            self.wf(),
        ensures
            f == interpolation_of(self@, now),
            f <= 1000,
    {
        let elapsed = if now >= self.tick_began_at {
            now - self.tick_began_at
        } else {
            0
        };
        if elapsed >= self.tick_duration {
            1000
        } else {
            assert(elapsed * 1000 / self.tick_duration as int <= 1000) by (nonlinear_arith)
                requires
                    0 <= elapsed < self.tick_duration,
            ;
            ((elapsed * 1000) / self.tick_duration) as u16
        }
    }
}

} // verus!
