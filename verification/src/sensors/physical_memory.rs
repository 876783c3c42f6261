//! Physical-memory sensor: total, free and available bytes.
//!
//! Total and free come from a direct system query; the kernel's own
//! "available" estimate has no direct query and is read from the
//! `MemAvailable` line of the kernel's memory counter file instead.

use crate::scan::{
    dec_value, digits_end, digits_value, end_digits, is_digit, is_ws, skip_ws, str_eq, ws_end,
};
use crate::sensors::{spec_value_or_max, value_or_max, MetricKind, Observation};
use vstd::prelude::*;

verus! {

/// The available-memory figure of one line of the kernel's memory counter
/// file: `MemAvailable:`, whitespace, a decimal count of kibibytes, then
/// optional whitespace and `kB` ending the line.
pub open spec fn spec_available_kb(s: Seq<char>) -> Option<int> {
    if s.len() >= 14 && s.subrange(0, 13) == "MemAvailable:"@ && is_ws(s[13]) {
        let p = skip_ws(s, 13);
        if p < s.len() && is_digit(s[p]) {
            let e = end_digits(s, p);
            let q = skip_ws(s, e);
            if q + 2 == s.len() && s[q] == 'k' && s[q + 1] == 'B' {
                Some(dec_value(s.subrange(p, e)))
            } else {
                None
            }
        } else {
            None
        }
    } else {
        None
    }
}

/// The available kibibytes of one line of the kernel's memory counter
/// file, or `None` if the line is not the `MemAvailable` line or the
/// figure does not fit in a `u64`.
pub fn available_memory_from_meminfo_line(line: &str) -> (r: Option<u64>)
    ensures
        ({
            let parsed = spec_available_kb(line@);
            match r {
                Some(kb) => parsed == Some(kb as int),
                None => parsed is None || (parsed matches Some(v) && v > u64::MAX),
            }
        }),
{
    let n: usize = line.unicode_len();
    if n < 14 {
        return None;
    }
    let prefix = line.substring_char(0, 13);
    if !str_eq(prefix, "MemAvailable:") {
        return None;
    }
    let c13 = line.get_char(13);
    if !(c13 == ' ' || c13 == '\t') {
        return None;
    }
    let p = ws_end(line, 13, n);
    if p >= n {
        return None;
    }
    let cp = line.get_char(p);
    if !('0' <= cp && cp <= '9') {
        return None;
    }
    let e = digits_end(line, p, n);
    let q = ws_end(line, e, n);
    if !(n - q == 2 && line.get_char(q) == 'k' && line.get_char(q + 1) == 'B') {
        return None;
    }
    digits_value(line, p, e, n)
}

/// The observations one memory sample emits: total, free and available
/// bytes, as counters, clamped to the signed 64-bit counter range.  The
/// available figure arrives in kibibytes and is scaled to bytes before
/// clamping.
pub open spec fn spec_memory_observations(
    total_bytes: u64,
    free_bytes: u64,
    available_kb: u64,
) -> Seq<(Seq<char>, MetricKind, int)> {
    seq![
        ("physical_memory.total_bytes"@, MetricKind::Count, spec_value_or_max(total_bytes) as int),
        ("physical_memory.free_bytes"@, MetricKind::Count, spec_value_or_max(free_bytes) as int),
        (
            "physical_memory.available_bytes"@,
            MetricKind::Count,
            if 1024 * (available_kb as int) >= i64::MAX {
                i64::MAX as int
            } else {
                1024 * (available_kb as int)
            },
        ),
    ]
}

/// Samples total, free and available physical memory.  Stateless: every
/// sample is a fresh absolute reading.
pub struct PhysicalMemorySensor {}

impl PhysicalMemorySensor {
    pub fn new() -> PhysicalMemorySensor {
        PhysicalMemorySensor {}
    }

    /// One sample: turn a fresh reading of total and free bytes and the
    /// kernel's available-kibibytes figure into the three memory
    /// observations.
    pub fn sense(&self, total_bytes: u64, free_bytes: u64, available_kb: u64) -> (obs: Vec<
        Observation,
    >)
        ensures
            crate::sensors::obs_views(obs@) == spec_memory_observations(
                total_bytes,
                free_bytes,
                available_kb,
            ),
    {
        let available_scaled: u128 = available_kb as u128 * 1024;
        let available_value: i64 = if available_scaled >= i64::MAX as u128 {
            i64::MAX
        } else {
            available_scaled as i64
        };
        let mut obs: Vec<Observation> = Vec::new();
        obs.push(
            Observation {
                name: "physical_memory.total_bytes".to_owned(),
                kind: MetricKind::Count,
                value: value_or_max(total_bytes),
            },
        );
        obs.push(
            Observation {
                name: "physical_memory.free_bytes".to_owned(),
                kind: MetricKind::Count,
                value: value_or_max(free_bytes),
            },
        );
        obs.push(
            Observation {
                name: "physical_memory.available_bytes".to_owned(),
                kind: MetricKind::Count,
                value: available_value,
            },
        );
        proof {
            assert(crate::sensors::obs_views(obs@) =~= spec_memory_observations(
                total_bytes,
                free_bytes,
                available_kb,
            ));
        }
        obs
    }
}

} // verus!
