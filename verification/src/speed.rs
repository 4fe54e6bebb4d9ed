//! The speed sampler: interface byte counters to instantaneous rates,
//! running peaks and totals, and a fixed-length rolling history.

use vstd::prelude::*;
use vstd::string::StringExecFns;

verus! {

/// A fixed-capacity rolling history of paired download and upload
/// samples in bytes per second, oldest first, always `max_points`
/// long.
pub struct SpeedHistory {
    pub download: Vec<u64>,
    pub upload: Vec<u64>,
    pub max_points: usize,
}

impl SpeedHistory {
    pub open spec fn wf(&self) -> bool {
        &&& self.download@.len() == self.max_points
        &&& self.upload@.len() == self.max_points
    }

    /// A history of zeros, one pair per point.
    pub fn new(max_points: usize) -> (h: SpeedHistory)
        ensures
            h.max_points == max_points,
            h.download@ == Seq::new(max_points as nat, |i: int| 0u64),
            h.upload@ == Seq::new(max_points as nat, |i: int| 0u64),
            h.wf(),
    {
        let mut download: Vec<u64> = Vec::new();
        let mut upload: Vec<u64> = Vec::new();
        let mut i: usize = 0;
        while i < max_points
            invariant
                i <= max_points,
                download@ == Seq::new(i as nat, |k: int| 0u64),
                upload@ == Seq::new(i as nat, |k: int| 0u64),
            decreases max_points - i,
        {
            download.push(0);
            upload.push(0);
            proof {
                assert(download@ =~= Seq::new((i + 1) as nat, |k: int| 0u64));
                assert(upload@ =~= Seq::new((i + 1) as nat, |k: int| 0u64));
            }
            i = i + 1;
        }
        SpeedHistory { download, upload, max_points }
    }

    /// Appends one sample pair, evicting the oldest pair past the
    /// capacity.
    pub fn push(&mut self, down: u64, up: u64)
        ensures
            final(self).max_points == old(self).max_points,
            final(self).download@ == (if old(self).download@.len() + 1 > old(self).max_points {
                old(self).download@.push(down).skip(1)
            } else {
                old(self).download@.push(down)
            }),
            final(self).upload@ == (if old(self).upload@.len() + 1 > old(self).max_points {
                old(self).upload@.push(up).skip(1)
            } else {
                old(self).upload@.push(up)
            }),
            old(self).wf() ==> final(self).wf(),
    {
        self.download.push(down);
        self.upload.push(up);
        if self.download.len() > self.max_points {
            let ghost before = self.download@;
            self.download.remove(0);
            proof {
                assert(self.download@ =~= before.skip(1));
            }
        }
        if self.upload.len() > self.max_points {
            let ghost before = self.upload@;
            self.upload.remove(0);
            proof {
                assert(self.upload@ =~= before.skip(1));
            }
        }
    }
}

/// A counter delta: zero when the counter reset backwards.
pub open spec fn spec_delta(prev: u64, now: u64) -> u64 {
    if now >= prev {
        (now - prev) as u64
    } else {
        0
    }
}

/// A rate in bytes per second from a delta over a duration, saturating
/// at the counter width.
pub open spec fn spec_rate(delta: u64, elapsed_ms: u64) -> u64
    recommends
        elapsed_ms > 0,
{
    if (delta * 1000) / (elapsed_ms as int) > u64::MAX {
        u64::MAX
    } else {
        ((delta * 1000) / (elapsed_ms as int)) as u64
    }
}

pub open spec fn spec_sat_add(a: u64, b: u64) -> u64 {
    if a + b > u64::MAX {
        u64::MAX
    } else {
        (a + b) as u64
    }
}

/// The per-tick speed state: current and peak rates, running totals,
/// the previous counters, the rolling history, and the most active
/// interface's name.
pub struct SpeedMonitor {
    pub current_down: u64,
    pub current_up: u64,
    pub peak_down: u64,
    pub peak_up: u64,
    pub total_down: u64,
    pub total_up: u64,
    pub prev_recv: u64,
    pub prev_sent: u64,
    pub history: SpeedHistory,
    pub interface_name: String,
}

impl SpeedMonitor {
    pub fn new(recv: u64, sent: u64, interface_name: String, max_points: usize) -> (m:
        SpeedMonitor)
        ensures
            m.current_down == 0 && m.current_up == 0,
            m.peak_down == 0 && m.peak_up == 0,
            m.total_down == 0 && m.total_up == 0,
            m.prev_recv == recv && m.prev_sent == sent,
            m.history.wf(),
            m.history.max_points == max_points,
            m.interface_name == interface_name,
    {
        SpeedMonitor {
            current_down: 0,
            current_up: 0,
            peak_down: 0,
            peak_up: 0,
            total_down: 0,
            total_up: 0,
            prev_recv: recv,
            prev_sent: sent,
            history: SpeedHistory::new(max_points),
            interface_name,
        }
    }

    /// One tick's sample: rates from the counter deltas over the
    /// elapsed time, counters that ran backwards counting as zero
    /// delta; peaks hold the running maximum, totals the saturating
    /// sum of deltas; the pair joins the history.
    pub fn sample(&mut self, recv: u64, sent: u64, elapsed_ms: u64, interface_name: String)
        requires
            elapsed_ms > 0,
        ensures
            final(self).current_down == spec_rate(
                spec_delta(old(self).prev_recv, recv),
                elapsed_ms,
            ),
            final(self).current_up == spec_rate(
                spec_delta(old(self).prev_sent, sent),
                elapsed_ms,
            ),
            final(self).total_down == spec_sat_add(
                old(self).total_down,
                spec_delta(old(self).prev_recv, recv),
            ),
            final(self).total_up == spec_sat_add(
                old(self).total_up,
                spec_delta(old(self).prev_sent, sent),
            ),
            final(self).peak_down == (if final(self).current_down > old(self).peak_down {
                final(self).current_down
            } else {
                old(self).peak_down
            }),
            final(self).peak_up == (if final(self).current_up > old(self).peak_up {
                final(self).current_up
            } else {
                old(self).peak_up
            }),
            final(self).prev_recv == recv,
            final(self).prev_sent == sent,
            final(self).interface_name == interface_name,
            final(self).history.max_points == old(self).history.max_points,
            final(self).history.download@ == (if old(self).history.download@.len() + 1 > old(
                self,
            ).history.max_points {
                old(self).history.download@.push(final(self).current_down).skip(1)
            } else {
                old(self).history.download@.push(final(self).current_down)
            }),
            final(self).history.upload@ == (if old(self).history.upload@.len() + 1 > old(
                self,
            ).history.max_points {
                old(self).history.upload@.push(final(self).current_up).skip(1)
            } else {
                old(self).history.upload@.push(final(self).current_up)
            }),
            old(self).history.wf() ==> final(self).history.wf(),
    {
        let dr = if recv >= self.prev_recv {
            recv - self.prev_recv
        } else {
            0
        };
        let ds = if sent >= self.prev_sent {
            sent - self.prev_sent
        } else {
            0
        };
        self.current_down = Self::rate_of(dr, elapsed_ms);
        self.current_up = Self::rate_of(ds, elapsed_ms);
        self.total_down = if self.total_down <= u64::MAX - dr {
            self.total_down + dr
        } else {
            u64::MAX
        };
        self.total_up = if self.total_up <= u64::MAX - ds {
            self.total_up + ds
        } else {
            u64::MAX
        };
        if self.current_down > self.peak_down {
            self.peak_down = self.current_down;
        }
        if self.current_up > self.peak_up {
            self.peak_up = self.current_up;
        }
        self.history.push(self.current_down, self.current_up);
        self.prev_recv = recv;
        self.prev_sent = sent;
        self.interface_name = interface_name;
    }

    fn rate_of(delta: u64, elapsed_ms: u64) -> (r: u64)
        requires
            elapsed_ms > 0,
        ensures
            r == spec_rate(delta, elapsed_ms),
    {
        let wide = (delta as u128) * 1000 / (elapsed_ms as u128);
        if wide > u64::MAX as u128 {
            u64::MAX
        } else {
            wide as u64
        }
    }
}

// ─── Interface aggregation ───────────────────────────────────────────────

pub open spec fn spec_sum_recv(ifaces: Seq<(Seq<char>, u64, u64)>) -> int
    decreases ifaces.len(),
{
    if ifaces.len() == 0 {
        0
    } else {
        spec_sum_recv(ifaces.drop_last()) + ifaces.last().1
    }
}

pub open spec fn spec_sum_sent(ifaces: Seq<(Seq<char>, u64, u64)>) -> int
    decreases ifaces.len(),
{
    if ifaces.len() == 0 {
        0
    } else {
        spec_sum_sent(ifaces.drop_last()) + ifaces.last().2
    }
}

/// The name of the interface with the highest receive-plus-send
/// total, the first such winning ties and zero-traffic interfaces
/// never winning; with the running best alongside.
pub open spec fn spec_best_iface(
    ifaces: Seq<(Seq<char>, u64, u64)>,
    i: int,
    best: int,
    name: Seq<char>,
) -> (int, Seq<char>)
    decreases ifaces.len() - i,
{
    if i < 0 || i >= ifaces.len() {
        (best, name)
    } else {
        let t = ifaces[i].1 + ifaces[i].2;
        if t > best {
            spec_best_iface(ifaces, i + 1, t, ifaces[i].0)
        } else {
            spec_best_iface(ifaces, i + 1, best, name)
        }
    }
}

pub open spec fn spec_sat64(v: int) -> u64 {
    if v > u64::MAX {
        u64::MAX
    } else if v < 0 {
        0
    } else {
        v as u64
    }
}

/// Aggregates received and sent bytes across all interfaces,
/// saturating at the counter width, and names the most active
/// interface (`No Interface` when none carried traffic).
pub fn aggregate_network_bytes(ifaces: &Vec<(String, u64, u64)>) -> (r: (u64, u64, String))
    ensures
        r.0 == spec_sat64(spec_sum_recv(ifaces.deep_view())),
        r.1 == spec_sat64(spec_sum_sent(ifaces.deep_view())),
        r.2@ == spec_best_iface(ifaces.deep_view(), 0, 0, "No Interface"@).1,
{
    let n = ifaces.len();
    let mut recv: u128 = 0;
    let mut sent: u128 = 0;
    let mut best: u128 = 0;
    let mut name = String::new();
    name.append("No Interface");
    let mut i: usize = 0;
    proof {
        assert(ifaces.deep_view().take(0).len() == 0);
        assert(forall|k: int|
            0 <= k < ifaces@.len() ==> #[trigger] ifaces.deep_view()[k] == (
                ifaces@[k].0@,
                ifaces@[k].1,
                ifaces@[k].2,
            ));
        assert(name@ =~= "No Interface"@);
    }
    while i < n
        invariant
            i <= n,
            n == ifaces@.len(),
            ifaces.deep_view().len() == n,
            forall|k: int|
                0 <= k < n ==> #[trigger] ifaces.deep_view()[k] == (
                    ifaces@[k].0@,
                    ifaces@[k].1,
                    ifaces@[k].2,
                ),
            recv == spec_sum_recv(ifaces.deep_view().take(i as int)),
            sent == spec_sum_sent(ifaces.deep_view().take(i as int)),
            recv <= i * 0xFFFF_FFFF_FFFF_FFFF,
            sent <= i * 0xFFFF_FFFF_FFFF_FFFF,
            best <= 2 * 0xFFFF_FFFF_FFFF_FFFF,
            spec_best_iface(ifaces.deep_view(), 0, 0, "No Interface"@) == spec_best_iface(
                ifaces.deep_view(),
                i as int,
                best as int,
                name@,
            ),
        decreases n - i,
    {
        proof {
            assert(ifaces.deep_view().take(i + 1).drop_last() =~= ifaces.deep_view().take(
                i as int,
            ));
            assert(ifaces.deep_view().take(i + 1).last() == ifaces.deep_view()[i as int]);
            assert((i + 1) * 0xFFFF_FFFF_FFFF_FFFF == i * 0xFFFF_FFFF_FFFF_FFFF
                + 0xFFFF_FFFF_FFFF_FFFF) by (nonlinear_arith);
            assert(i * 0xFFFF_FFFF_FFFF_FFFF <= n * 0xFFFF_FFFF_FFFF_FFFF) by (nonlinear_arith)
                requires
                    0 <= i <= n,
            ;
        }
        let r = ifaces[i].1;
        let s = ifaces[i].2;
        recv = recv + r as u128;
        sent = sent + s as u128;
        let t = r as u128 + s as u128;
        if t > best {
            best = t;
            name = ifaces[i].0.clone();
        }
        i = i + 1;
    }
    proof {
        assert(ifaces.deep_view().take(n as int) =~= ifaces.deep_view());
    }
    let recv64 = if recv > u64::MAX as u128 {
        u64::MAX
    } else {
        recv as u64
    };
    let sent64 = if sent > u64::MAX as u128 {
        u64::MAX
    } else {
        sent as u64
    };
    (recv64, sent64, name)
}

} // verus!
