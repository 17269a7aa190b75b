//! Round-trip measurement. A ping carries an id; the pong that echoes the
//! id gives one sample, which moves the running averages of round-trip time
//! and jitter. Times are in milliseconds, averages in microseconds.

use crate::ack_manager::elapsed_between;
use crate::sequence::advance;
use crate::sequence_buffer::{map_inserted, next_advanced, too_old, SequenceBuffer};
use crate::wire::{take_u16, u16_bytes, write_u16, PacketReader};
use vstd::prelude::*;

verus! {

/// The number of pings whose send time is remembered.
pub const PING_WINDOW: u16 = 32;

/// The longest sample that is taken as it is, in milliseconds; longer ones
/// count as this.
pub const MAX_SAMPLE: u64 = 4294967295;

/// The running averages.
pub struct RttEstimate {
    /// The average round-trip time, in microseconds.
    pub rtt: u64,
    /// The average deviation of a sample from the round-trip time, in
    /// microseconds.
    pub jitter: u64,
}

/// A sample in microseconds, capped.
pub open spec fn sample_micros(sample: u64) -> int {
    if sample > MAX_SAMPLE {
        MAX_SAMPLE * 1000
    } else {
        sample * 1000
    }
}

/// The distance between two numbers.
pub open spec fn distance(a: int, b: int) -> int {
    if a >= b {
        a - b
    } else {
        b - a
    }
}

/// The exponentially weighted average of `average` and a new `value`, with
/// weight `1 / size` for the value.
pub open spec fn weighted(average: int, value: int, size: int) -> int {
    (average * (size - 1) + value) / size
}

/// The averages after a sample of `sample` milliseconds: the jitter moves
/// towards the sample's distance from the old round-trip average, the
/// round-trip average towards the sample.
pub open spec fn estimate_after(e: RttEstimate, sample: u64, size: u16) -> RttEstimate {
    let s = sample_micros(sample);
    RttEstimate {
        rtt: weighted(e.rtt as int, s, size as int) as u64,
        jitter: weighted(e.jitter as int, distance(s, e.rtt as int), size as int) as u64,
    }
}

/// The abstract state of the ping manager.
pub struct PingView {
    pub ping_interval: u64,
    pub sample_size: u16,
    pub last_ping_at: u64,
    pub next_ping_index: u16,
    pub sent: Map<u16, u64>,
    pub sent_next: u16,
    pub estimate: RttEstimate,
}

/// The state after a ping has left at `now`.
pub open spec fn ping_sent(p: PingView, now: u64) -> PingView {
    PingView {
        last_ping_at: now,
        next_ping_index: advance(p.next_ping_index, 1),
        sent: map_inserted(p.sent, p.sent_next, PING_WINDOW as int, p.next_ping_index, now),
        sent_next: if too_old(p.sent_next, PING_WINDOW as int, p.next_ping_index) {
            p.sent_next
        } else {
            next_advanced(p.sent_next, p.next_ping_index)
        },
        ..p
    }
}

/// What a pong that arrived at `now` leaves behind: where its payload
/// echoes the id of a remembered ping, the time since that ping is the
/// sample and moves the averages; else nothing changes.
pub open spec fn pong_heard(
    before: PingView,
    after: PingView,
    payload: Seq<u8>,
    now: u64,
    sample: Option<u64>,
) -> bool {
    match take_u16(payload, 0) {
        Some((index, _)) => if before.sent.contains_key(index) {
            let s = elapsed_between(before.sent[index], now);
            sample == Some(s) && after == (PingView {
                estimate: estimate_after(before.estimate, s, before.sample_size),
                ..before
            })
        } else {
            sample is None && after == before
        },
        None => sample is None && after == before,
    }
}

/// The state after a pong that arrived at `now`.
pub open spec fn ping_after_pong(p: PingView, payload: Seq<u8>, now: u64) -> PingView {
    match take_u16(payload, 0) {
        Some((index, _)) => if p.sent.contains_key(index) {
            PingView {
                estimate: estimate_after(
                    p.estimate,
                    elapsed_between(p.sent[index], now),
                    p.sample_size,
                ),
                ..p
            }
        } else {
            p
        },
        None => p,
    }
}

/// Measures round-trip time and jitter.
pub struct PingManager {
    ping_interval: u64,
    sample_size: u16,
    last_ping_at: u64,
    ping_index: u16,
    sent_pings: SequenceBuffer<u64>,
    rtt_average: u64,
    jitter_average: u64,
}

impl View for PingManager {
    type V = PingView;

    closed spec fn view(&self) -> PingView {
        PingView {
            ping_interval: self.ping_interval,
            sample_size: self.sample_size,
            last_ping_at: self.last_ping_at,
            next_ping_index: self.ping_index,
            sent: self.sent_pings@,
            sent_next: self.sent_pings.next(),
            estimate: RttEstimate { rtt: self.rtt_average, jitter: self.jitter_average },
        }
    }
}

/// The largest value that an average can take, in microseconds.
pub open spec fn max_average() -> int {
    MAX_SAMPLE * 1000
}

pub proof fn lemma_weighted_bound(average: int, value: int, size: int)
    requires
        0 <= average <= max_average(),
        0 <= value <= max_average(),
        1 <= size <= 65535,
    ensures
        0 <= weighted(average, value, size) <= max_average(),
        average * (size - 1) + value <= max_average() * size,
        0 <= average * (size - 1) + value,
{
    assert(average * (size - 1) <= max_average() * (size - 1)) by (nonlinear_arith)
        requires
            0 <= average <= max_average(),
            size >= 1,
    ;
    assert(0 <= average * (size - 1)) by (nonlinear_arith)
        requires
            0 <= average,
            size >= 1,
    ;
    assert(max_average() * (size - 1) + max_average() == max_average() * size)
        by (nonlinear_arith);
    let total = average * (size - 1) + value;
    assert(total / size <= max_average()) by (nonlinear_arith)
        requires
            0 <= total <= max_average() * size,
            size >= 1,
    ;
    assert(0 <= total / size) by (nonlinear_arith)
        requires
            0 <= total,
            size >= 1,
    ;
}

impl PingManager {
    pub closed spec fn wf(&self) -> bool {
        &&& self.sent_pings.wf()
        &&& self.sent_pings.capacity() == PING_WINDOW
        &&& self.sample_size >= 1
        &&& self.rtt_average <= max_average()
        &&& self.jitter_average <= max_average()
    }

    /// A manager that has sent no ping and taken no sample; `now` counts as
    /// the time of the last ping.
    pub fn new(ping_interval: u64, rtt_sample_size: u16, now: u64) -> (m: Self)
        requires
            rtt_sample_size >= 1,
        ensures
            m.wf(),
            m@ == (PingView {
                ping_interval,
                sample_size: rtt_sample_size,
                last_ping_at: now,
                next_ping_index: 0,
                sent: Map::<u16, u64>::empty(),
                sent_next: 0,
                estimate: RttEstimate { rtt: 0, jitter: 0 },
            }),
    {
        PingManager {
            ping_interval,
            sample_size: rtt_sample_size,
            last_ping_at: now,
            ping_index: 0,
            sent_pings: SequenceBuffer::with_capacity(PING_WINDOW),
            rtt_average: 0,
            jitter_average: 0,
        }
    }

    /// Whether the ping interval has passed since the last ping.
    pub fn should_send_ping(&self, now: u64) -> (b: bool)
        ensures
            b == (elapsed_between(self@.last_ping_at, now) >= self@.ping_interval),
    {
        let elapsed = if now >= self.last_ping_at {
            now - self.last_ping_at
        } else {
            0
        };
        elapsed >= self.ping_interval
    }

    /// The payload of the next ping: its id. The manager remembers that the
    /// ping left at `now`.
    pub fn get_ping_payload(&mut self, now: u64) -> (payload: Vec<u8>)
        requires
            old(self).wf(),
        ensures
            final(self).wf(),
            payload@ == u16_bytes(old(self)@.next_ping_index),
            final(self)@ == ping_sent(old(self)@, now),
    {
        let index = self.ping_index;
        self.sent_pings.insert(index, now);
        self.ping_index = index.wrapping_add(1);
        self.last_ping_at = now;
        let mut payload: Vec<u8> = Vec::new();
        write_u16(&mut payload, index);
        assert(payload@ =~= u16_bytes(index));
        payload
    }

    /// Takes a sample of `sample` milliseconds into the averages.
    pub fn process_new_rtt(&mut self, sample: u64)
        requires
            old(self).wf(),
        ensures
            final(self).wf(),
            final(self)@ == (PingView {
                estimate: estimate_after(old(self)@.estimate, sample, old(self)@.sample_size),
                ..old(self)@
            }),
    {
        let capped: u64 = if sample > MAX_SAMPLE {
            MAX_SAMPLE
        } else {
            sample
        };
        let micros: u64 = capped * 1000;
        let deviation: u64 = if micros >= self.rtt_average {
            micros - self.rtt_average
        } else {
            self.rtt_average - micros
        };
        let size: u64 = self.sample_size as u64;
        proof {
            lemma_weighted_bound(self.rtt_average as int, micros as int, size as int);
            lemma_weighted_bound(self.jitter_average as int, deviation as int, size as int);
            assert(max_average() * 65535 < 0xffff_ffff_ffff_ffff);
            assert(max_average() * size <= max_average() * 65535) by (nonlinear_arith)
                requires
                    size <= 65535,
            ;
            assert(self.rtt_average * (size - 1) >= 0) by (nonlinear_arith)
                requires
                    size >= 1,
            ;
            assert(self.jitter_average * (size - 1) >= 0) by (nonlinear_arith)
                requires
                    size >= 1,
            ;
        }
        let new_jitter = (self.jitter_average * (size - 1) + deviation) / size;
        let new_rtt = (self.rtt_average * (size - 1) + micros) / size;
        self.jitter_average = new_jitter;
        self.rtt_average = new_rtt;
    }

    /// Handles a pong that arrived at `now`: where its payload echoes the
    /// id of a remembered ping, the time since that ping is taken as a
    /// sample and returned.
    pub fn process_pong(&mut self, pong_payload: &[u8], now: u64) -> (sample: Option<u64>)
        requires
            old(self).wf(),
        ensures
            final(self).wf(),
            pong_heard(old(self)@, final(self)@, pong_payload@, now, sample),
            final(self)@ == ping_after_pong(old(self)@, pong_payload@, now),
    {
        let mut reader = PacketReader::new(pong_payload);
        let index = match reader.read_u16() {
            Some(v) => v,
            None => {
                return None;
            },
        };
        let sent_at = match self.sent_pings.get(index) {
            Some(t) => *t,
            None => {
                return None;
            },
        };
        let s = if now >= sent_at {
            now - sent_at
        } else {
            0
        };
        self.process_new_rtt(s);
        Some(s)
    }

    /// The average round-trip time in milliseconds.
    pub fn get_rtt(&self) -> (rtt: u32)
        requires
            self.wf(),
        ensures
            rtt == self@.estimate.rtt / 1000,
    {
        (self.rtt_average / 1000) as u32
    }

    /// The average jitter in milliseconds.
    pub fn get_jitter(&self) -> (jitter: u32)
        requires
            self.wf(),
        ensures
            jitter == self@.estimate.jitter / 1000,
    {
        (self.jitter_average / 1000) as u32
    }
}

} // verus!
