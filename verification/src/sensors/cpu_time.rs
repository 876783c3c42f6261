//! CPU-time sensor: busy percentage over the interval since the previous
//! sample, computed from cumulative idle and busy tick counters.

use crate::scan::{
    dec_value, digits_end, digits_value, end_digits, is_digit, is_ws, lemma_dec_value_nonneg,
    lemma_end_digits, lemma_skip_ws, skip_ws, ws_end,
};
use crate::sensors::{MetricKind, Observation};
use vstd::arithmetic::div_mod::lemma_fundamental_div_mod;
use vstd::prelude::*;

verus! {

/// `count` whitespace-separated decimal fields of `s`, the first beginning
/// at or after `pos`, each a run of digits; `None` unless all are present.
pub open spec fn parse_fields(s: Seq<char>, pos: int, count: nat) -> Option<Seq<int>>
    decreases count when 0 <= pos <= s.len()
    via parse_fields_decreases
{
    if count == 0 {
        Some(Seq::empty())
    } else {
        let p = skip_ws(s, pos);
        if p < s.len() && is_digit(s[p]) {
            let e = end_digits(s, p);
            match parse_fields(s, e, (count - 1) as nat) {
                None => None,
                Some(rest) => Some(seq![dec_value(s.subrange(p, e))] + rest),
            }
        } else {
            None
        }
    }
}

#[via_fn]
proof fn parse_fields_decreases(s: Seq<char>, pos: int, count: nat) {
    if count > 0 {
        lemma_skip_ws(s, pos);
        let p = skip_ws(s, pos);
        if p < s.len() && is_digit(s[p]) {
            lemma_end_digits(s, p);
        }
    }
}

/// The idle and busy tick totals of the aggregate CPU line of the kernel's
/// counter file: `cpu`, whitespace, then at least eight decimal fields
/// (user, nice, system, idle, iowait, irq, softirq, steal).  Idle is
/// idle + iowait; busy is the sum of the other six.
pub open spec fn spec_cpu_ticks(s: Seq<char>) -> Option<(int, int)> {
    if s.len() >= 4 && s[0] == 'c' && s[1] == 'p' && s[2] == 'u' && is_ws(s[3]) {
        match parse_fields(s, 3, 8) {
            None => None,
            Some(f) => Some((f[3] + f[4], f[0] + f[1] + f[2] + f[5] + f[6] + f[7])),
        }
    } else {
        None
    }
}

/// The CPU busy percentage over an interval with the given elapsed idle
/// and busy ticks: `100 * busy / (busy + idle)`, rounded to the nearest
/// integer (halves up), and `0` when no tick elapsed at all.
pub open spec fn spec_busy_percent(elapsed_idle: int, elapsed_busy: int) -> int {
    let total = elapsed_idle + elapsed_busy;
    if total == 0 {
        0
    } else {
        (200 * elapsed_busy + total) / (2 * total)
    }
}

/// The observations one CPU sample emits: the busy percentage and its
/// complement, as counters.
pub open spec fn spec_cpu_observations(
    last_idle: u64,
    last_busy: u64,
    idle_ticks: u64,
    busy_ticks: u64,
) -> Seq<(Seq<char>, MetricKind, int)> {
    if idle_ticks < last_idle || busy_ticks < last_busy {
        Seq::empty()
    } else {
        let busy = spec_busy_percent(idle_ticks - last_idle, busy_ticks - last_busy);
        seq![
            ("cpu_time.busy_time"@, MetricKind::Count, busy),
            ("cpu_time.idle_time"@, MetricKind::Count, 100 - busy),
        ]
    }
}

proof fn lemma_busy_percent_bounds(elapsed_idle: int, elapsed_busy: int)
    requires
        elapsed_idle >= 0,
        elapsed_busy >= 0,
    ensures
        0 <= spec_busy_percent(elapsed_idle, elapsed_busy) <= 100,
{
    let total = elapsed_idle + elapsed_busy;
    if total != 0 {
        let num = 200 * elapsed_busy + total;
        let q = num / (2 * total);
        lemma_fundamental_div_mod(num, 2 * total);
        assert(num == 2 * total * q + num % (2 * total));
        assert(num <= 201 * total);
        assert(q >= 0) by (nonlinear_arith)
            requires
                num == 2 * total * q + num % (2 * total),
                0 <= num % (2 * total),
                num % (2 * total) < 2 * total,
                num >= 0,
                total > 0,
        ;
        assert(q <= 100) by (nonlinear_arith)
            requires
                num == 2 * total * q + num % (2 * total),
                0 <= num % (2 * total),
                num <= 201 * total,
                total > 0,
                q >= 0,
        ;
    }
}

/// Samples the CPU busy percentage.  Stateful: holds the cumulative tick
/// counters seen at the previous sample, so each sample is a delta.
pub struct CpuTimeSensor {
    last_idle_ticks: u64,
    last_busy_ticks: u64,
}

impl CpuTimeSensor {
    pub closed spec fn spec_last_idle_ticks(&self) -> u64 {
        self.last_idle_ticks
    }

    pub closed spec fn spec_last_busy_ticks(&self) -> u64 {
        self.last_busy_ticks
    }

    /// The sensor whose remembered baseline is the given counters.
    pub closed spec fn spec_with_baseline(idle_ticks: u64, busy_ticks: u64) -> CpuTimeSensor {
        CpuTimeSensor { last_idle_ticks: idle_ticks, last_busy_ticks: busy_ticks }
    }

    /// A new sensor seeded with one baseline reading of the cumulative
    /// counters, so that the first real sample has a valid predecessor.
    pub fn new(initial_idle_ticks: u64, initial_busy_ticks: u64) -> (sensor: CpuTimeSensor)
        ensures
            sensor == CpuTimeSensor::spec_with_baseline(initial_idle_ticks, initial_busy_ticks),
            sensor.spec_last_idle_ticks() == initial_idle_ticks,
            sensor.spec_last_busy_ticks() == initial_busy_ticks,
    {
        CpuTimeSensor { last_idle_ticks: initial_idle_ticks, last_busy_ticks: initial_busy_ticks }
    }

    /// One sample: take the new cumulative counters, compute the busy
    /// percentage over the elapsed interval, and advance the baseline.
    ///
    /// A counter that decreased (a reset) yields no observations — emitting
    /// a value derived from a wrapped subtraction would be nonsense — but
    /// the baseline still advances to the new counters, so later samples
    /// recover on their own.
    pub fn sense(&mut self, idle_ticks: u64, busy_ticks: u64) -> (obs: Vec<Observation>)
        ensures
            *final(self) == CpuTimeSensor::spec_with_baseline(idle_ticks, busy_ticks),
            final(self).spec_last_idle_ticks() == idle_ticks,
            final(self).spec_last_busy_ticks() == busy_ticks,
            crate::sensors::obs_views(obs@) == spec_cpu_observations(
                old(self).spec_last_idle_ticks(),
                old(self).spec_last_busy_ticks(),
                idle_ticks,
                busy_ticks,
            ),
    {
        let last_idle = self.last_idle_ticks;
        let last_busy = self.last_busy_ticks;
        self.last_idle_ticks = idle_ticks;
        self.last_busy_ticks = busy_ticks;
        if idle_ticks < last_idle || busy_ticks < last_busy {
            let obs: Vec<Observation> = Vec::new();
            proof {
                assert(crate::sensors::obs_views(obs@) =~= Seq::<
                    (Seq<char>, MetricKind, int),
                >::empty());
            }
            return obs;
        }
        let elapsed_idle = idle_ticks - last_idle;
        let elapsed_busy = busy_ticks - last_busy;
        let total: u128 = elapsed_idle as u128 + elapsed_busy as u128;
        let busy: i64 = if total == 0 {
            0
        } else {
            let num: u128 = 200u128 * (elapsed_busy as u128) + total;
            let q: u128 = num / (2u128 * total);
            proof {
                lemma_busy_percent_bounds(elapsed_idle as int, elapsed_busy as int);
            }
            q as i64
        };
        proof {
            lemma_busy_percent_bounds(elapsed_idle as int, elapsed_busy as int);
            assert(busy == spec_busy_percent(elapsed_idle as int, elapsed_busy as int));
        }
        let mut obs: Vec<Observation> = Vec::new();
        obs.push(
            Observation {
                name: "cpu_time.busy_time".to_owned(),
                kind: MetricKind::Count,
                value: busy,
            },
        );
        obs.push(
            Observation {
                name: "cpu_time.idle_time".to_owned(),
                kind: MetricKind::Count,
                value: 100 - busy,
            },
        );
        proof {
            assert(crate::sensors::obs_views(obs@) =~= spec_cpu_observations(
                last_idle,
                last_busy,
                idle_ticks,
                busy_ticks,
            ));
        }
        obs
    }
}

fn opt_add(a: Option<u64>, b: Option<u64>) -> (r: Option<u64>)
    ensures
        match r {
            Some(x) => a matches Some(ax) && b matches Some(bx) && x == ax + bx,
            None => a is None || b is None || (a matches Some(ax) && b matches Some(bx) && ax + bx
                > u64::MAX),
        },
{
    match (a, b) {
        (Some(x), Some(y)) => {
            if x <= u64::MAX - y {
                Some(x + y)
            } else {
                None
            }
        },
        _ => None,
    }
}

/// The idle and busy tick totals of one line of the kernel's counter file,
/// or `None` if the line is not the aggregate CPU line or a total does not
/// fit in a `u64`.
pub fn cpu_time_from_stat_line(line: &str) -> (r: Option<(u64, u64)>)
    ensures
        ({
            let parsed = spec_cpu_ticks(line@);
            match r {
                Some(ticks) => parsed == Some((ticks.0 as int, ticks.1 as int)),
                None => parsed is None || (parsed matches Some(t) && (t.0 > u64::MAX || t.1
                    > u64::MAX)),
            }
        }),
{
    let n: usize = line.unicode_len();
    if n < 4 {
        return None;
    }
    if !(line.get_char(0) == 'c' && line.get_char(1) == 'p' && line.get_char(2) == 'u') {
        return None;
    }
    let c3 = line.get_char(3);
    if !(c3 == ' ' || c3 == '\t') {
        return None;
    }
    let mut vals: Vec<Option<u64>> = Vec::new();
    let ghost mut gvals: Seq<int> = Seq::empty();
    let mut pos: usize = 3;
    let mut k: usize = 0;
    proof {
        if parse_fields(line@, 3, 8) is Some {
            let rest = parse_fields(line@, 3, 8).unwrap();
            assert(Seq::<int>::empty() + rest =~= rest);
        }
    }
    while k < 8
        invariant
            n == line@.len(),
            3 <= pos <= n,
            k == vals@.len(),
            k <= 8,
            gvals.len() == k,
            forall|i: int|
                0 <= i < k ==> (#[trigger] vals@[i] matches Some(x) ==> gvals[i] == x),
            forall|i: int| 0 <= i < k ==> (#[trigger] vals@[i] is None ==> gvals[i] > u64::MAX),
            forall|i: int| 0 <= i < k ==> gvals[i] >= 0,
            parse_fields(line@, pos as int, (8 - k) as nat) matches Some(rest) ==> parse_fields(
                line@,
                3,
                8,
            ) == Some(gvals + rest),
            parse_fields(line@, pos as int, (8 - k) as nat) is None ==> parse_fields(
                line@,
                3,
                8,
            ) is None,
        decreases 8 - k,
    {
        let ghost pos0 = pos as int;
        let ghost k0 = k as int;
        let ghost gvals0 = gvals;
        let p = ws_end(line, pos, n);
        if p >= n {
            proof {
                assert(parse_fields(line@, pos0, (8 - k0) as nat) is None);
            }
            return None;
        }
        let c = line.get_char(p);
        if !('0' <= c && c <= '9') {
            proof {
                assert(!is_digit(line@[p as int]));
                assert(parse_fields(line@, pos0, (8 - k0) as nat) is None);
            }
            return None;
        }
        let e = digits_end(line, p, n);
        let v = digits_value(line, p, e, n);
        proof {
            lemma_dec_value_nonneg(line@.subrange(p as int, e as int));
        }
        vals.push(v);
        proof {
            gvals = gvals.push(dec_value(line@.subrange(p as int, e as int)));
        }
        pos = e;
        k = k + 1;
        proof {
            let s = line@;
            let val = dec_value(s.subrange(p as int, e as int));
            let cnt1 = (8 - k0 - 1) as nat;
            if parse_fields(s, e as int, cnt1) is Some {
                let rest = parse_fields(s, e as int, cnt1).unwrap();
                assert(parse_fields(s, pos0, (8 - k0) as nat) == Some(seq![val] + rest));
                assert(gvals0 + (seq![val] + rest) =~= gvals + rest);
            } else {
                assert(parse_fields(s, pos0, (8 - k0) as nat) is None);
            }
        }
    }
    proof {
        assert(parse_fields(line@, pos as int, 0) == Some(Seq::<int>::empty()));
        assert(gvals + Seq::<int>::empty() =~= gvals);
        assert(parse_fields(line@, 3, 8) == Some(gvals));
    }
    let f0 = vals[0];
    let f1 = vals[1];
    let f2 = vals[2];
    let f3 = vals[3];
    let f4 = vals[4];
    let f5 = vals[5];
    let f6 = vals[6];
    let f7 = vals[7];
    let idle = opt_add(f3, f4);
    let b01 = opt_add(f0, f1);
    let b012 = opt_add(b01, f2);
    let b0125 = opt_add(b012, f5);
    let b01256 = opt_add(b0125, f6);
    let busy = opt_add(b01256, f7);
    match (idle, busy) {
        (Some(a), Some(b)) => Some((a, b)),
        _ => None,
    }
}

} // verus!
