//! Congestion window, RTT estimation and how much fresh data may be sent.
use vstd::prelude::*;

verus! {

/// `x`, capped at the largest `u32`.
pub open spec fn sat32(x: int) -> int {
    if x > u32::MAX as int {
        u32::MAX as int
    } else {
        x
    }
}

pub open spec fn min_int(a: int, b: int) -> int {
    if a <= b {
        a
    } else {
        b
    }
}

pub open spec fn max_int(a: int, b: int) -> int {
    if a >= b {
        a
    } else {
        b
    }
}

/// Bytes in the first fragments of `s`.
pub open spec fn sum_sizes(s: Seq<u32>) -> int
    decreases s.len(),
{
    if s.len() == 0 {
        0
    } else {
        sum_sizes(s.drop_last()) + s.last() as int
    }
}

/// The one chunk that may go out against a zero receiver window: nothing is
/// outstanding, so it probes the window.
pub open spec fn zero_window_probe(outstanding: u32, rwnd: u32) -> bool {
    rwnd == 0 && outstanding == 0
}

/// Both windows leave room for `bytes` more outstanding.
pub open spec fn fits_windows(outstanding: u32, bytes: int, cwnd: u32, rwnd: u32) -> bool {
    outstanding as int + bytes <= min_int(cwnd as int, rwnd as int)
}

/// How many pending fragments, from the front, go out now: as many as fit
/// both windows, or a single probe when the receiver's window is zero and
/// nothing is outstanding.
pub fn schedule_fresh(pending: &Vec<u32>, outstanding: u32, cwnd: u32, rwnd: u32) -> (r: usize)
    ensures
        r <= pending@.len(),
        zero_window_probe(outstanding, rwnd) && pending@.len() > 0 ==> r == 1,
        !(zero_window_probe(outstanding, rwnd) && pending@.len() > 0) ==> (r > 0 ==> fits_windows(
            outstanding,
            sum_sizes(pending@.take(r as int)),
            cwnd,
            rwnd,
        )) && (r < pending@.len() ==> !fits_windows(
            outstanding,
            sum_sizes(pending@.take(r as int + 1)),
            cwnd,
            rwnd,
        )),
{
    if rwnd == 0 && outstanding == 0 && pending.len() > 0 {
        return 1;
    }
    let limit: u64 = if cwnd <= rwnd {
        cwnd as u64
    } else {
        rwnd as u64
    };
    let mut total: u64 = outstanding as u64;
    let mut i: usize = 0;
    while i < pending.len()
        invariant
            i <= pending@.len(),
            limit == min_int(cwnd as int, rwnd as int),
            total == outstanding as int + sum_sizes(pending@.take(i as int)),
            i > 0 ==> fits_windows(outstanding, sum_sizes(pending@.take(i as int)), cwnd, rwnd),
        ensures
            i <= pending@.len(),
            i > 0 ==> fits_windows(outstanding, sum_sizes(pending@.take(i as int)), cwnd, rwnd),
            i < pending@.len() ==> !fits_windows(
                outstanding,
                sum_sizes(pending@.take(i as int + 1)),
                cwnd,
                rwnd,
            ),
        decreases pending@.len() - i,
    {
        assert(pending@.take(i as int + 1).drop_last() =~= pending@.take(i as int));
        let next = total + pending[i] as u64;
        if next > limit {
            break ;
        }
        total = next;
        i = i + 1;
    }
    assert(pending@.take(0) =~= Seq::<u32>::empty());
    i
}

/// Slow start, congestion avoidance and the reactions to loss.
pub struct CongestionControl {
    pub cwnd: u32,
    pub ssthresh: u32,
    pub partial_bytes_acked: u32,
    pub mtu: u32,
}

/// `max(cwnd / 2, 4 * mtu)`, where the window falls back to after a loss.
pub open spec fn loss_threshold(cwnd: u32, mtu: u32) -> int {
    max_int(cwnd as int / 2, sat32(4 * mtu as int))
}

impl CongestionControl {
    fn loss_ssthresh(&self) -> (r: u32)
        ensures
            r == loss_threshold(self.cwnd, self.mtu),
    {
        let four_mtu: u32 = if self.mtu > u32::MAX / 4 {
            u32::MAX
        } else {
            4 * self.mtu
        };
        let half = self.cwnd / 2;
        if half >= four_mtu {
            half
        } else {
            four_mtu
        }
    }

    /// A SACK acknowledged `bytes_acked` new bytes. Below `ssthresh` the
    /// window grows by up to one MTU; above it the bytes are counted, and a
    /// window's worth adds one MTU when the sender used the whole window.
    pub fn on_sack(&mut self, bytes_acked: u32, cwnd_limited: bool)
        ensures
            final(self).mtu == old(self).mtu,
            final(self).ssthresh == old(self).ssthresh,
            bytes_acked == 0 ==> *final(self) == *old(self),
            bytes_acked > 0 && old(self).cwnd < old(self).ssthresh ==> final(self).cwnd == sat32(
                old(self).cwnd + min_int(bytes_acked as int, old(self).mtu as int),
            ) && final(self).partial_bytes_acked == old(self).partial_bytes_acked,
            bytes_acked > 0 && old(self).cwnd >= old(self).ssthresh ==> ({
                let pba = sat32(old(self).partial_bytes_acked + bytes_acked);
                if pba >= old(self).cwnd && cwnd_limited {
                    final(self).partial_bytes_acked == pba - old(self).cwnd
                        && final(self).cwnd == sat32(old(self).cwnd + old(self).mtu)
                } else {
                    final(self).partial_bytes_acked == pba && final(self).cwnd == old(self).cwnd
                }
            }),
    {
        if bytes_acked == 0 {
            return ;
        }
        if self.cwnd < self.ssthresh {
            let inc = if bytes_acked < self.mtu {
                bytes_acked
            } else {
                self.mtu
            };
            self.cwnd = if self.cwnd > u32::MAX - inc {
                u32::MAX
            } else {
                self.cwnd + inc
            };
        } else {
            let pba = if self.partial_bytes_acked > u32::MAX - bytes_acked {
                u32::MAX
            } else {
                self.partial_bytes_acked + bytes_acked
            };
            if pba >= self.cwnd && cwnd_limited {
                self.partial_bytes_acked = pba - self.cwnd;
                self.cwnd = if self.cwnd > u32::MAX - self.mtu {
                    u32::MAX
                } else {
                    self.cwnd + self.mtu
                };
            } else {
                self.partial_bytes_acked = pba;
            }
        }
    }

    /// T3-rtx expired: back to one MTU.
    pub fn on_retransmission_timeout(&mut self)
        ensures
            final(self).ssthresh == loss_threshold(old(self).cwnd, old(self).mtu),
            final(self).cwnd == old(self).mtu,
            final(self).mtu == old(self).mtu,
            final(self).partial_bytes_acked == old(self).partial_bytes_acked,
    {
        self.ssthresh = self.loss_ssthresh();
        self.cwnd = self.mtu;
    }

    /// Fast retransmit: the window drops to the new threshold.
    pub fn on_fast_retransmit(&mut self)
        ensures
            final(self).ssthresh == loss_threshold(old(self).cwnd, old(self).mtu),
            final(self).cwnd == final(self).ssthresh,
            final(self).mtu == old(self).mtu,
            final(self).partial_bytes_acked == old(self).partial_bytes_acked,
    {
        self.ssthresh = self.loss_ssthresh();
        self.cwnd = self.ssthresh;
    }
}

/// RFC 6298 estimator, in milliseconds.
pub struct RtoManager {
    pub srtt: u64,
    pub rttvar: u64,
    pub rto: u64,
    pub rto_min: u64,
    pub rto_max: u64,
    /// No sample has been taken yet.
    pub first: bool,
}

pub open spec fn clamp_int(x: int, lo: int, hi: int) -> int {
    if x < lo {
        lo
    } else if x > hi {
        hi
    } else {
        x
    }
}

pub open spec fn abs_diff(a: int, b: int) -> int {
    if a >= b {
        a - b
    } else {
        b - a
    }
}

impl RtoManager {
    pub open spec fn wf(&self) -> bool {
        self.srtt <= u32::MAX && self.rttvar <= u32::MAX && self.rto_min <= self.rto_max
    }

    /// No sample yet; the timeout starts at `rto_initial`.
    pub fn new(rto_initial: u64, rto_min: u64, rto_max: u64) -> (r: Self)
        requires
            rto_min <= rto_max,
        ensures
            r.wf(),
            r.first && r.srtt == 0 && r.rttvar == 0,
            r.rto == rto_initial && r.rto_min == rto_min && r.rto_max == rto_max,
    {
        RtoManager { srtt: 0, rttvar: 0, rto: rto_initial, rto_min, rto_max, first: true }
    }

    /// Takes in the round-trip sample `rtt` and returns the new timeout.
    pub fn set_new_rtt(&mut self, rtt: u32) -> (r: u64)
        requires
            old(self).wf(),
        ensures
            final(self).wf(),
            old(self).first ==> final(self).srtt == rtt && final(self).rttvar == rtt / 2,
            !old(self).first ==> final(self).rttvar == (3 * old(self).rttvar + abs_diff(
                old(self).srtt as int,
                rtt as int,
            )) / 4 && final(self).srtt == (7 * old(self).srtt + rtt) / 8,
            !final(self).first,
            final(self).rto == clamp_int(
                final(self).srtt + 4 * final(self).rttvar,
                old(self).rto_min as int,
                old(self).rto_max as int,
            ),
            r == final(self).rto,
            final(self).rto_min == old(self).rto_min && final(self).rto_max == old(self).rto_max,
    {
        let rtt = rtt as u64;
        if self.first {
            self.srtt = rtt;
            self.rttvar = rtt / 2;
            self.first = false;
        } else {
            let diff = if self.srtt >= rtt {
                self.srtt - rtt
            } else {
                rtt - self.srtt
            };
            self.rttvar = (3 * self.rttvar + diff) / 4;
            self.srtt = (7 * self.srtt + rtt) / 8;
        }
        let raw = self.srtt + 4 * self.rttvar;
        self.rto = if raw < self.rto_min {
            self.rto_min
        } else if raw > self.rto_max {
            self.rto_max
        } else {
            raw
        };
        self.rto
    }
}

} // verus!
