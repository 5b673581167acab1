//! The metrics sink: integer counters, gauges and per-QoS delivery-time
//! histograms, updated by the coordinator and workers and read as a snapshot
//! by the HTTP collaborator.

use vstd::prelude::*;

verus! {

/// A queue came or went.
#[derive(Clone, Copy, Debug, PartialEq, Eq, Structural)]
pub enum ActiveQueue {
    Create,
    Remove,
}

/// One histogram: how many observations and their saturating sum.
#[derive(Clone, Copy, Debug, PartialEq, Eq, Structural)]
pub struct HistogramState {
    pub count: u64,
    pub sum_ms: u64,
}

/// The sink's counters and histograms.
#[derive(Clone, Copy, Debug, PartialEq, Eq, Structural)]
pub struct MetricsState {
    pub connected_clients: i64,
    pub received_packets: u64,
    pub active_queues: i64,
    pub qos0_delivery_time: HistogramState,
    pub qos1_delivery_time: HistogramState,
    pub qos2_delivery_time: HistogramState,
}

/// A histogram after one observation: the count up one, the sum saturating.
pub open spec fn histogram_after(h: HistogramState, ms: u64) -> HistogramState {
    HistogramState {
        count: if h.count < u64::MAX {
            (h.count + 1) as u64
        } else {
            u64::MAX
        },
        sum_ms: if h.sum_ms + ms <= u64::MAX {
            (h.sum_ms + ms) as u64
        } else {
            u64::MAX
        },
    }
}

impl MetricsState {
    /// All counters at zero.
    pub fn new() -> (r: MetricsState)
        ensures
            r.connected_clients == 0,
            r.received_packets == 0,
            r.active_queues == 0,
            r.qos0_delivery_time == (HistogramState { count: 0, sum_ms: 0 }),
            r.qos1_delivery_time == (HistogramState { count: 0, sum_ms: 0 }),
            r.qos2_delivery_time == (HistogramState { count: 0, sum_ms: 0 }),
    {
        MetricsState {
            connected_clients: 0,
            received_packets: 0,
            active_queues: 0,
            qos0_delivery_time: HistogramState { count: 0, sum_ms: 0 },
            qos1_delivery_time: HistogramState { count: 0, sum_ms: 0 },
            qos2_delivery_time: HistogramState { count: 0, sum_ms: 0 },
        }
    }

    /// One more connected client, saturating at the gauge's ceiling.
    pub fn track_connect(&mut self)
        ensures
            *final(self) == (MetricsState {
                connected_clients: if old(self).connected_clients < i64::MAX {
                    (old(self).connected_clients + 1) as i64
                } else {
                    i64::MAX
                },
                ..*old(self)
            }),
    {
        if self.connected_clients < i64::MAX {
            self.connected_clients = self.connected_clients + 1;
        }
    }

    /// One connected client fewer, saturating at the gauge's floor.
    pub fn track_disconnect(&mut self)
        ensures
            *final(self) == (MetricsState {
                connected_clients: if old(self).connected_clients > i64::MIN {
                    (old(self).connected_clients - 1) as i64
                } else {
                    i64::MIN
                },
                ..*old(self)
            }),
    {
        if self.connected_clients > i64::MIN {
            self.connected_clients = self.connected_clients - 1;
        }
    }

    /// One more received packet.
    pub fn track_packet(&mut self)
        ensures
            *final(self) == (MetricsState {
                received_packets: if old(self).received_packets < u64::MAX {
                    (old(self).received_packets + 1) as u64
                } else {
                    u64::MAX
                },
                ..*old(self)
            }),
    {
        if self.received_packets < u64::MAX {
            self.received_packets = self.received_packets + 1;
        }
    }

    /// One queue created or removed.
    pub fn track_active_queue(&mut self, q: ActiveQueue)
        ensures
            *final(self) == (MetricsState {
                active_queues: (match q {
                    ActiveQueue::Create => if old(self).active_queues < i64::MAX {
                        (old(self).active_queues + 1) as i64
                    } else {
                        i64::MAX
                    },
                    ActiveQueue::Remove => if old(self).active_queues > i64::MIN {
                        (old(self).active_queues - 1) as i64
                    } else {
                        i64::MIN
                    },
                }),
                ..*old(self)
            }),
    {
        match q {
            ActiveQueue::Create => {
                if self.active_queues < i64::MAX {
                    self.active_queues = self.active_queues + 1;
                }
            },
            ActiveQueue::Remove => {
                if self.active_queues > i64::MIN {
                    self.active_queues = self.active_queues - 1;
                }
            },
        }
    }

    /// Record a delivery's latency under its effective QoS; other QoS values
    /// change nothing.
    pub fn track_delivery_time(&mut self, qos: u8, duration_ms: u64)
        ensures
            *final(self) == (MetricsState {
                qos0_delivery_time: if qos == 0 {
                    histogram_after(old(self).qos0_delivery_time, duration_ms)
                } else {
                    old(self).qos0_delivery_time
                },
                qos1_delivery_time: if qos == 1 {
                    histogram_after(old(self).qos1_delivery_time, duration_ms)
                } else {
                    old(self).qos1_delivery_time
                },
                qos2_delivery_time: if qos == 2 {
                    histogram_after(old(self).qos2_delivery_time, duration_ms)
                } else {
                    old(self).qos2_delivery_time
                },
                ..*old(self)
            }),
    {
        if qos == 0 {
            self.qos0_delivery_time = observe(self.qos0_delivery_time, duration_ms);
        } else if qos == 1 {
            self.qos1_delivery_time = observe(self.qos1_delivery_time, duration_ms);
        } else if qos == 2 {
            self.qos2_delivery_time = observe(self.qos2_delivery_time, duration_ms);
        }
    }

    /// A read-only copy of every counter, for the metrics endpoint.
    pub fn gather(&self) -> (r: MetricsState)
        ensures
            r == *self,
    {
        *self
    }
}

/// One observation into a histogram.
fn observe(h: HistogramState, ms: u64) -> (r: HistogramState)
    ensures
        r == histogram_after(h, ms),
{
    let count = if h.count < u64::MAX {
        h.count + 1
    } else {
        u64::MAX
    };
    let sum_ms = if ms <= u64::MAX - h.sum_ms {
        h.sum_ms + ms
    } else {
        u64::MAX
    };
    HistogramState { count, sum_ms }
}

} // verus!
