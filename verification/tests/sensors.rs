use lines::sensors::cpu_time::{cpu_time_from_stat_line, CpuTimeSensor};
use lines::sensors::disk_space::{create_drive_metric_name, DiskSpaceSensor};
use lines::sensors::physical_memory::{available_memory_from_meminfo_line, PhysicalMemorySensor};
use lines::sensors::{run_all_sensors, value_or_max, MetricKind, Sensor, SensorReading};

#[test]
fn cpu_busy_percentage_from_synthetic_counters() {
    let mut sensor = CpuTimeSensor::new(100, 0);
    let obs = sensor.sense(150, 50);
    assert_eq!(obs.len(), 2);
    assert_eq!(obs[0].name, "cpu_time.busy_time");
    assert_eq!(obs[0].kind, MetricKind::Count);
    assert_eq!(obs[0].value, 50);
    assert_eq!(obs[1].name, "cpu_time.idle_time");
    assert_eq!(obs[1].kind, MetricKind::Count);
    assert_eq!(obs[1].value, 50);
}

#[test]
fn cpu_counter_reset_skips_emission_and_rebaselines() {
    let mut sensor = CpuTimeSensor::new(100, 100);
    // A reboot-style reset: both counters below the remembered baseline.
    let obs = sensor.sense(50, 50);
    assert!(obs.is_empty());
    // The lower values became the new baseline, so the next sample works.
    let obs = sensor.sense(100, 150);
    assert_eq!(obs.len(), 2);
    assert_eq!(obs[0].value, 67); // round(100 * 100 / 150)
    assert_eq!(obs[1].value, 33);
}

#[test]
fn cpu_busy_percentage_rounds_to_nearest() {
    // 100 * 1 / 3 rounds down to 33; 100 * 2 / 3 rounds up to 67.
    let mut sensor = CpuTimeSensor::new(0, 0);
    let obs = sensor.sense(2, 1);
    assert_eq!(obs[0].value, 33);
    let mut sensor = CpuTimeSensor::new(0, 0);
    let obs = sensor.sense(1, 2);
    assert_eq!(obs[0].value, 67);
}

#[test]
fn cpu_no_elapsed_ticks_reports_zero_busy() {
    let mut sensor = CpuTimeSensor::new(100, 100);
    let obs = sensor.sense(100, 100);
    assert_eq!(obs.len(), 2);
    assert_eq!(obs[0].value, 0);
    assert_eq!(obs[1].value, 100);
}

#[test]
fn value_or_max_clamps() {
    assert_eq!(value_or_max(u64::MAX), i64::MAX);
    assert_eq!(value_or_max(0), 0);
    assert_eq!(value_or_max(i64::MAX as u64), i64::MAX);
    assert_eq!(value_or_max(12345), 12345);
}

#[test]
fn stat_line_parses_aggregate_cpu_line() {
    let line = "cpu  4705 356 584 3699 23 23 0 0 0 0";
    // idle = 3699 + 23; busy = 4705 + 356 + 584 + 23 + 0 + 0.
    assert_eq!(cpu_time_from_stat_line(line), Some((3722, 5668)));
}

#[test]
fn stat_line_rejects_everything_else() {
    assert_eq!(cpu_time_from_stat_line("cpu0 4705 356 584 3699 23 23 0 0"), None);
    assert_eq!(cpu_time_from_stat_line("intr 12345"), None);
    assert_eq!(cpu_time_from_stat_line("cpu 1 2 3"), None);
    assert_eq!(cpu_time_from_stat_line("cpu"), None);
    assert_eq!(cpu_time_from_stat_line(""), None);
}

#[test]
fn stat_line_rejects_totals_beyond_u64() {
    // One field alone is too large for a u64 total.
    let line = "cpu 99999999999999999999999999 0 0 1 0 0 0 0";
    assert_eq!(cpu_time_from_stat_line(line), None);
}

#[test]
fn meminfo_line_parses_available_memory() {
    assert_eq!(available_memory_from_meminfo_line("MemAvailable:    1586452 kB"), Some(1586452));
    assert_eq!(available_memory_from_meminfo_line("MemAvailable:\t7 kB"), Some(7));
    assert_eq!(available_memory_from_meminfo_line("MemAvailable: 10kB"), Some(10));
}

#[test]
fn meminfo_line_rejects_everything_else() {
    assert_eq!(available_memory_from_meminfo_line("MemFree:   10 kB"), None);
    assert_eq!(available_memory_from_meminfo_line("MemAvailable: 10 kB extra"), None);
    assert_eq!(available_memory_from_meminfo_line("MemAvailable: kB"), None);
    assert_eq!(available_memory_from_meminfo_line("MemAvailable:10 kB"), None);
    assert_eq!(available_memory_from_meminfo_line(""), None);
}

#[test]
fn disk_sense_emits_clamped_drive_metrics() {
    let sensor = DiskSpaceSensor::new("C:".to_string());
    let obs = sensor.sense(1000, 500);
    assert_eq!(obs.len(), 2);
    assert_eq!(obs[0].name, "drive.C.total_bytes");
    assert_eq!(obs[0].kind, MetricKind::Count);
    assert_eq!(obs[0].value, 1000);
    assert_eq!(obs[1].name, "drive.C.free_bytes");
    assert_eq!(obs[1].value, 500);
    let big = DiskSpaceSensor::new("/".to_string());
    let obs = big.sense(u64::MAX, 0);
    assert_eq!(obs[0].name, "drive./.total_bytes");
    assert_eq!(obs[0].value, i64::MAX);
}

#[test]
fn drive_metric_name_strips_colons() {
    assert_eq!(create_drive_metric_name("C:", "total_bytes"), "drive.C.total_bytes");
    assert_eq!(create_drive_metric_name("/var/log", "free_bytes"), "drive./var/log.free_bytes");
}

#[test]
fn memory_sense_emits_three_metrics() {
    let sensor = PhysicalMemorySensor::new();
    let obs = sensor.sense(4096, 2048, 3);
    assert_eq!(obs.len(), 3);
    assert_eq!(obs[0].name, "physical_memory.total_bytes");
    assert_eq!(obs[0].value, 4096);
    assert_eq!(obs[1].name, "physical_memory.free_bytes");
    assert_eq!(obs[1].value, 2048);
    assert_eq!(obs[2].name, "physical_memory.available_bytes");
    assert_eq!(obs[2].value, 3072);
}

#[test]
fn memory_available_bytes_clamped_not_wrapped() {
    let sensor = PhysicalMemorySensor::new();
    let obs = sensor.sense(0, 0, u64::MAX);
    assert_eq!(obs[2].value, i64::MAX);
}

#[test]
fn one_failed_sensor_does_not_block_the_others() {
    let mut sensors = vec![
        Sensor::DiskSpace(DiskSpaceSensor::new("/".to_string())),
        Sensor::PhysicalMemory(PhysicalMemorySensor::new()),
        Sensor::CpuTime(CpuTimeSensor::new(100, 0)),
    ];
    let readings = vec![
        SensorReading::DiskSpace { total_bytes: 10, free_bytes: 4 },
        SensorReading::Unavailable,
        SensorReading::CpuTime { idle_ticks: 150, busy_ticks: 50 },
    ];
    let obs = run_all_sensors(&mut sensors, &readings);
    // The failing memory sensor contributed nothing; both neighbours did.
    assert_eq!(obs.len(), 4);
    assert_eq!(obs[0].name, "drive./.total_bytes");
    assert_eq!(obs[0].value, 10);
    assert_eq!(obs[1].name, "drive./.free_bytes");
    assert_eq!(obs[1].value, 4);
    assert_eq!(obs[2].name, "cpu_time.busy_time");
    assert_eq!(obs[2].value, 50);
    assert_eq!(obs[3].name, "cpu_time.idle_time");
    assert_eq!(obs[3].value, 50);
}

#[test]
fn full_cycle_emits_in_sensor_order() {
    let mut sensors = vec![
        Sensor::DiskSpace(DiskSpaceSensor::new("/data".to_string())),
        Sensor::PhysicalMemory(PhysicalMemorySensor::new()),
        Sensor::CpuTime(CpuTimeSensor::new(0, 0)),
    ];
    let readings = vec![
        SensorReading::DiskSpace { total_bytes: 100, free_bytes: 50 },
        SensorReading::PhysicalMemory { total_bytes: 8, free_bytes: 2, available_kb: 4 },
        SensorReading::CpuTime { idle_ticks: 75, busy_ticks: 25 },
    ];
    let obs = run_all_sensors(&mut sensors, &readings);
    let names: Vec<&str> = obs.iter().map(|o| o.name.as_str()).collect();
    assert_eq!(
        names,
        vec![
            "drive./data.total_bytes",
            "drive./data.free_bytes",
            "physical_memory.total_bytes",
            "physical_memory.free_bytes",
            "physical_memory.available_bytes",
            "cpu_time.busy_time",
            "cpu_time.idle_time",
        ]
    );
    assert_eq!(obs[5].value, 25);
    assert_eq!(obs[6].value, 75);
}
