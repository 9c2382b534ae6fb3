//! Request counters, bucketed by response status, flushed periodically.
use vstd::prelude::*;
use vstd::wrapping::u64_specs::wrapping_add;

verus! {

/// Counters since the last flush. Counters wrap on overflow.
#[derive(Debug, Default)]
pub struct Metrics {
    pub total_requests: u64,
    pub total_bytes: u64,
    pub status_2xx: u64,
    pub status_4xx: u64,
    pub status_5xx: u64,
}

/// The counter bucket of a status: 2 for 2xx, 4 for 4xx, 5 for 500 and
/// above, 0 for the rest.
pub open spec fn bucket_of(status: u16) -> u8 {
    if 200 <= status < 300 {
        2
    } else if 400 <= status < 500 {
        4
    } else if status >= 500 {
        5
    } else {
        0
    }
}

impl Metrics {
    /// All counters at zero.
    pub fn new() -> (r: Metrics)
        ensures
            r.total_requests == 0 && r.total_bytes == 0 && r.status_2xx == 0 && r.status_4xx == 0
                && r.status_5xx == 0,
    {
        Metrics { total_requests: 0, total_bytes: 0, status_2xx: 0, status_4xx: 0, status_5xx: 0 }
    }

    /// The counters as they were, `(requests, bytes, 2xx, 4xx, 5xx)`; all
    /// counters start again from zero.
    pub fn reset(&mut self) -> (r: (u64, u64, u64, u64, u64))
        ensures
            r == (
                old(self).total_requests,
                old(self).total_bytes,
                old(self).status_2xx,
                old(self).status_4xx,
                old(self).status_5xx,
            ),
            final(self).total_requests == 0 && final(self).total_bytes == 0 && final(self).status_2xx
                == 0 && final(self).status_4xx == 0 && final(self).status_5xx == 0,
    {
        let r = (
            self.total_requests,
            self.total_bytes,
            self.status_2xx,
            self.status_4xx,
            self.status_5xx,
        );
        self.total_requests = 0;
        self.total_bytes = 0;
        self.status_2xx = 0;
        self.status_4xx = 0;
        self.status_5xx = 0;
        r
    }

    /// Counts one finished request. With a written response (`status`),
    /// its body bytes are added and its status bucket counted.
    pub fn record(&mut self, status: Option<u16>, body_bytes: u64)
        ensures
            final(self).total_requests == wrapping_add(old(self).total_requests, 1),
            final(self).total_bytes == match status {
                Some(_) => wrapping_add(old(self).total_bytes, body_bytes),
                None => old(self).total_bytes,
            },
            final(self).status_2xx == if status matches Some(s) && bucket_of(s) == 2 {
                wrapping_add(old(self).status_2xx, 1)
            } else {
                old(self).status_2xx
            },
            final(self).status_4xx == if status matches Some(s) && bucket_of(s) == 4 {
                wrapping_add(old(self).status_4xx, 1)
            } else {
                old(self).status_4xx
            },
            final(self).status_5xx == if status matches Some(s) && bucket_of(s) == 5 {
                wrapping_add(old(self).status_5xx, 1)
            } else {
                old(self).status_5xx
            },
    {
        self.total_requests = self.total_requests.wrapping_add(1);
        if let Some(s) = status {
            self.total_bytes = self.total_bytes.wrapping_add(body_bytes);
            if 200 <= s && s < 300 {
                self.status_2xx = self.status_2xx.wrapping_add(1);
            } else if 400 <= s && s < 500 {
                self.status_4xx = self.status_4xx.wrapping_add(1);
            } else if s >= 500 {
                self.status_5xx = self.status_5xx.wrapping_add(1);
            }
        }
    }
}

} // verus!

verus! {

/// The row to store for counters taken by `Metrics::reset` at `now`; none
/// when no request was counted.
pub fn traffic_stat_row(counters: (u64, u64, u64, u64, u64), now: i64) -> (r: Option<
    crate::rows::TrafficStatRow,
>)
    ensures
        r is Some <==> counters.0 > 0,
        r matches Some(row) ==> row.timestamp == now && row.total_requests == counters.0 as i64
            && row.total_bytes == counters.1 as i64 && row.status_2xx == counters.2 as i64
            && row.status_4xx == counters.3 as i64 && row.status_5xx == counters.4 as i64,
{
    if counters.0 == 0 {
        return None;
    }
    Some(
        crate::rows::TrafficStatRow {
            id: 0,
            timestamp: now,
            total_requests: counters.0 as i64,
            total_bytes: counters.1 as i64,
            status_2xx: counters.2 as i64,
            status_4xx: counters.3 as i64,
            status_5xx: counters.4 as i64,
        },
    )
}

} // verus!
