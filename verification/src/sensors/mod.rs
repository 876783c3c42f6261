//! The closed set of sensors and the values they emit.
//!
//! Each sensor turns one raw operating-system reading into a list of named
//! metric observations.  The readings themselves are gathered by the
//! surrounding binary; everything from the reading to the observation list is
//! decided here.

pub mod cpu_time;
pub mod disk_space;
pub mod physical_memory;

pub use self::cpu_time::CpuTimeSensor;
pub use self::disk_space::DiskSpaceSensor;
pub use self::physical_memory::PhysicalMemorySensor;

use self::cpu_time::spec_cpu_observations;
use self::disk_space::spec_disk_observations;
use self::physical_memory::spec_memory_observations;
use vstd::prelude::*;

verus! {

/// How a metric value is to be interpreted by the collector: a counter is
/// a delta or accumulation, a gauge an absolute level.
#[derive(Clone, Copy, PartialEq, Eq, Structural, Debug)]
pub enum MetricKind {
    Count,
    Gauge,
}

/// One named numeric observation produced by a sensor, ready for emission.
#[derive(Clone, Debug)]
pub struct Observation {
    pub name: String,
    pub kind: MetricKind,
    pub value: i64,
}

impl View for Observation {
    type V = (Seq<char>, MetricKind, int);

    open spec fn view(&self) -> (Seq<char>, MetricKind, int) {
        (self.name@, self.kind, self.value as int)
    }
}

/// The views of a list of observations, for contracts.
pub open spec fn obs_views(obs: Seq<Observation>) -> Seq<(Seq<char>, MetricKind, int)> {
    obs.map_values(|o: Observation| o@)
}

/// The value a `u64` reading is reported as: statsd counters are signed
/// 64-bit, so a reading beyond `i64::MAX` is clamped to `i64::MAX` rather
/// than wrapped.
pub open spec fn spec_value_or_max(value: u64) -> i64 {
    if value >= i64::MAX as u64 {
        i64::MAX
    } else {
        value as i64
    }
}

/// Narrow a raw `u64` reading to the signed 64-bit range of a statsd
/// counter, clamping values beyond `i64::MAX` to `i64::MAX`.
pub fn value_or_max(value: u64) -> (r: i64)
    ensures
        r == spec_value_or_max(value),
{
    if value >= i64::MAX as u64 {
        i64::MAX
    } else {
        value as i64
    }
}

/// One raw operating-system reading, gathered by the surrounding binary
/// and handed to the sensor that asked for it.  `Unavailable` records that
/// the query failed: the sensor emits nothing this cycle.
#[derive(Clone, Copy, PartialEq, Eq, Structural, Debug)]
pub enum SensorReading {
    DiskSpace { total_bytes: u64, free_bytes: u64 },
    PhysicalMemory { total_bytes: u64, free_bytes: u64, available_kb: u64 },
    CpuTime { idle_ticks: u64, busy_ticks: u64 },
    Unavailable,
}

/// The closed set of sensors, dispatched through one sampling interface.
pub enum Sensor {
    DiskSpace(DiskSpaceSensor),
    PhysicalMemory(PhysicalMemorySensor),
    CpuTime(CpuTimeSensor),
}

/// The sensor's state after one sample: only the CPU sensor holds state,
/// and it advances its baseline to the counters it was fed.  A failed or
/// mismatched reading leaves every sensor as it was.
pub open spec fn spec_step(sensor: Sensor, reading: SensorReading) -> Sensor {
    match (sensor, reading) {
        (Sensor::CpuTime(_), SensorReading::CpuTime { idle_ticks, busy_ticks }) => Sensor::CpuTime(
            CpuTimeSensor::spec_with_baseline(idle_ticks, busy_ticks),
        ),
        _ => sensor,
    }
}

/// What one sensor emits on one reading.  An unavailable or mismatched
/// reading emits nothing.
pub open spec fn spec_observations(sensor: Sensor, reading: SensorReading) -> Seq<
    (Seq<char>, MetricKind, int),
> {
    match (sensor, reading) {
        (Sensor::DiskSpace(d), SensorReading::DiskSpace { total_bytes, free_bytes }) => {
            spec_disk_observations(d.spec_directory(), total_bytes, free_bytes)
        },
        (
            Sensor::PhysicalMemory(_),
            SensorReading::PhysicalMemory { total_bytes, free_bytes, available_kb },
        ) => { spec_memory_observations(total_bytes, free_bytes, available_kb) },
        (Sensor::CpuTime(c), SensorReading::CpuTime { idle_ticks, busy_ticks }) => {
            spec_cpu_observations(
                c.spec_last_idle_ticks(),
                c.spec_last_busy_ticks(),
                idle_ticks,
                busy_ticks,
            )
        },
        _ => Seq::empty(),
    }
}

fn no_observations() -> (obs: Vec<Observation>)
    ensures
        obs_views(obs@) == Seq::<(Seq<char>, MetricKind, int)>::empty(),
{
    let obs: Vec<Observation> = Vec::new();
    proof {
        assert(obs_views(obs@) =~= Seq::<(Seq<char>, MetricKind, int)>::empty());
    }
    obs
}

impl Sensor {
    /// One sample: dispatch the reading to this sensor's own logic and
    /// hand back what it emits.  Failures never escape: an unavailable
    /// reading yields no observations, and the sensor is ready for the
    /// next cycle.
    pub fn sense(&mut self, reading: &SensorReading) -> (obs: Vec<Observation>)
        ensures
            *final(self) == spec_step(*old(self), *reading),
            obs_views(obs@) == spec_observations(*old(self), *reading),
    {
        match self {
            Sensor::DiskSpace(d) => match reading {
                SensorReading::DiskSpace { total_bytes, free_bytes } => d.sense(
                    *total_bytes,
                    *free_bytes,
                ),
                _ => no_observations(),
            },
            Sensor::PhysicalMemory(m) => match reading {
                SensorReading::PhysicalMemory { total_bytes, free_bytes, available_kb } => m.sense(
                    *total_bytes,
                    *free_bytes,
                    *available_kb,
                ),
                _ => no_observations(),
            },
            Sensor::CpuTime(c) => match reading {
                SensorReading::CpuTime { idle_ticks, busy_ticks } => c.sense(
                    *idle_ticks,
                    *busy_ticks,
                ),
                _ => no_observations(),
            },
        }
    }
}

/// What one whole cycle emits: each sensor's observations on its own
/// reading, in sensor order.
pub open spec fn cycle_observations(
    sensors: Seq<Sensor>,
    readings: Seq<SensorReading>,
) -> Seq<(Seq<char>, MetricKind, int)>
    decreases sensors.len(),
{
    if sensors.len() == 0 || readings.len() == 0 {
        Seq::empty()
    } else {
        spec_observations(sensors[0], readings[0]) + cycle_observations(
            sensors.subrange(1, sensors.len() as int),
            readings.subrange(1, readings.len() as int),
        )
    }
}

/// One poll cycle's sampling: feed each sensor its reading, collect every
/// observation in sensor order, and advance each sensor's state.  One
/// sensor's failed reading never touches what the others emit.
pub fn run_all_sensors(sensors: &mut Vec<Sensor>, readings: &Vec<SensorReading>) -> (obs: Vec<
    Observation,
>)
    requires
        old(sensors)@.len() == readings@.len(),
    ensures
        final(sensors)@.len() == old(sensors)@.len(),
        forall|k: int|
            0 <= k < readings@.len() ==> final(sensors)@[k] == spec_step(
                old(sensors)@[k],
                readings@[k],
            ),
        obs_views(obs@) == cycle_observations(old(sensors)@, readings@),
{
    let ghost sensors0 = sensors@;
    let n: usize = sensors.len();
    let mut obs: Vec<Observation> = Vec::new();
    let mut k: usize = 0;
    proof {
        assert(sensors0.subrange(0, n as int) =~= sensors0);
        assert(readings@.subrange(0, n as int) =~= readings@);
        assert(obs_views(obs@) =~= Seq::<(Seq<char>, MetricKind, int)>::empty());
    }
    while k < n
        invariant
            n == sensors0.len(),
            n == readings@.len(),
            sensors@.len() == n,
            k <= n,
            forall|t: int| 0 <= t < k ==> sensors@[t] == spec_step(sensors0[t], readings@[t]),
            forall|t: int| k <= t < n ==> sensors@[t] == sensors0[t],
            obs_views(obs@) + cycle_observations(
                sensors0.subrange(k as int, n as int),
                readings@.subrange(k as int, n as int),
            ) == cycle_observations(sensors0, readings@),
        decreases n - k,
    {
        let ghost sensors_before = sensors@;
        let ghost obs_before = obs@;
        let reading = readings[k];
        let mut sensor = sensors.remove(k);
        let mut sensor_obs = sensor.sense(&reading);
        let ghost sensor_obs_v = sensor_obs@;
        sensors.insert(k, sensor);
        obs.append(&mut sensor_obs);
        proof {
            assert(sensors@ =~= sensors_before.update(k as int, sensors@[k as int]));
            let s_sub = sensors0.subrange(k as int, n as int);
            let r_sub = readings@.subrange(k as int, n as int);
            assert(s_sub.subrange(1, s_sub.len() as int) =~= sensors0.subrange(k + 1, n as int));
            assert(r_sub.subrange(1, r_sub.len() as int) =~= readings@.subrange(k + 1, n as int));
            assert(cycle_observations(s_sub, r_sub) == spec_observations(sensors0[k as int], reading)
                + cycle_observations(
                sensors0.subrange(k + 1, n as int),
                readings@.subrange(k + 1, n as int),
            ));
            assert(obs_views(obs@) =~= obs_views(obs_before) + obs_views(sensor_obs_v));
            assert((obs_views(obs_before) + obs_views(sensor_obs_v)) + cycle_observations(
                sensors0.subrange(k + 1, n as int),
                readings@.subrange(k + 1, n as int),
            ) =~= obs_views(obs_before) + (obs_views(sensor_obs_v) + cycle_observations(
                sensors0.subrange(k + 1, n as int),
                readings@.subrange(k + 1, n as int),
            )));
        }
        k = k + 1;
    }
    proof {
        assert(cycle_observations(
            sensors0.subrange(n as int, n as int),
            readings@.subrange(n as int, n as int),
        ) =~= Seq::<(Seq<char>, MetricKind, int)>::empty());
        assert(obs_views(obs@) + Seq::<(Seq<char>, MetricKind, int)>::empty() =~= obs_views(obs@));
    }
    obs
}

/// One failed sensor does not block the others: with sensor `k`'s reading
/// unavailable, the cycle's output is exactly what the remaining sensors
/// emit on the remaining readings, unchanged.
pub proof fn lemma_unavailable_sensor_isolated(
    sensors: Seq<Sensor>,
    readings: Seq<SensorReading>,
    k: int,
)
    requires
        sensors.len() == readings.len(),
        0 <= k < sensors.len(),
        readings[k] == SensorReading::Unavailable,
    ensures
        cycle_observations(sensors, readings) == cycle_observations(
            sensors.remove(k),
            readings.remove(k),
        ),
    decreases k,
{
    let n = sensors.len() as int;
    if k == 0 {
        assert(spec_observations(sensors[0], readings[0]) =~= Seq::<
            (Seq<char>, MetricKind, int),
        >::empty());
        assert(sensors.remove(0) =~= sensors.subrange(1, n));
        assert(readings.remove(0) =~= readings.subrange(1, n));
        assert(Seq::<(Seq<char>, MetricKind, int)>::empty() + cycle_observations(
            sensors.subrange(1, n),
            readings.subrange(1, n),
        ) =~= cycle_observations(sensors.subrange(1, n), readings.subrange(1, n)));
    } else {
        let s1 = sensors.subrange(1, n);
        let r1 = readings.subrange(1, n);
        lemma_unavailable_sensor_isolated(s1, r1, k - 1);
        assert(sensors.remove(k)[0] == sensors[0]);
        assert(readings.remove(k)[0] == readings[0]);
        assert(sensors.remove(k).subrange(1, n - 1) =~= s1.remove(k - 1));
        assert(readings.remove(k).subrange(1, n - 1) =~= r1.remove(k - 1));
    }
}

} // verus!
