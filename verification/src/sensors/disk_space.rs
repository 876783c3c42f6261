//! Disk-space sensor: free and total bytes of one configured directory.

use crate::sensors::{spec_value_or_max, value_or_max, MetricKind, Observation};
use vstd::prelude::*;

verus! {

/// `s` with every colon removed — a drive letter's `:` has no place in a
/// metric name.
pub open spec fn strip_colons(s: Seq<char>) -> Seq<char>
    decreases s.len(),
{
    if s.len() == 0 {
        Seq::empty()
    } else if s.last() == ':' {
        strip_colons(s.drop_last())
    } else {
        strip_colons(s.drop_last()).push(s.last())
    }
}

/// The full name of one drive metric: the `drive` prefix, the sanitized
/// directory, and the metric's suffix, dot-separated.
pub open spec fn spec_drive_metric_name(drive: Seq<char>, suffix: Seq<char>) -> Seq<char> {
    "drive."@ + strip_colons(drive) + "."@ + suffix
}

/// The observations one disk sample emits: total and free bytes of the
/// drive, as counters, clamped to the signed 64-bit counter range.
pub open spec fn spec_disk_observations(
    directory: Seq<char>,
    total_bytes: u64,
    free_bytes: u64,
) -> Seq<(Seq<char>, MetricKind, int)> {
    seq![
        (
            spec_drive_metric_name(directory, "total_bytes"@),
            MetricKind::Count,
            spec_value_or_max(total_bytes) as int,
        ),
        (
            spec_drive_metric_name(directory, "free_bytes"@),
            MetricKind::Count,
            spec_value_or_max(free_bytes) as int,
        ),
    ]
}

/// Build the name of one drive metric from the directory and the metric
/// suffix, stripping `:` characters from the directory.
pub fn create_drive_metric_name(drive: &str, suffix: &str) -> (r: String)
    ensures
        r@ == spec_drive_metric_name(drive@, suffix@),
{
    let n: usize = drive.unicode_len();
    let mut sanitized: String = String::new();
    let mut i: usize = 0;
    proof {
        assert(drive@.subrange(0, 0) =~= Seq::<char>::empty());
    }
    while i < n
        invariant
            n == drive@.len(),
            i <= n,
            sanitized@ == strip_colons(drive@.subrange(0, i as int)),
        decreases n - i,
    {
        let c = drive.get_char(i);
        proof {
            assert(drive@.subrange(0, i + 1).drop_last() =~= drive@.subrange(0, i as int));
            assert(drive@.subrange(0, i + 1).last() == drive@[i as int]);
        }
        if c != ':' {
            let piece = drive.substring_char(i, i + 1);
            proof {
                assert(sanitized@ + piece@ =~= strip_colons(drive@.subrange(0, i as int)).push(
                    drive@[i as int],
                ));
            }
            sanitized.append(piece);
        }
        i = i + 1;
    }
    proof {
        assert(drive@.subrange(0, n as int) =~= drive@);
    }
    let mut r: String = String::new();
    r.append("drive.");
    r.append(sanitized.as_str());
    r.append(".");
    r.append(suffix);
    proof {
        assert(r@ =~= spec_drive_metric_name(drive@, suffix@));
    }
    r
}

/// Samples free and total bytes of the filesystem holding one directory.
/// Stateless: every sample is a fresh absolute reading.
pub struct DiskSpaceSensor {
    directory_on_disk: String,
}

impl DiskSpaceSensor {
    /// The directory whose filesystem this sensor watches.
    pub closed spec fn spec_directory(&self) -> Seq<char> {
        self.directory_on_disk@
    }

    pub fn new(directory_on_disk: String) -> (sensor: DiskSpaceSensor)
        ensures
            sensor.spec_directory() == directory_on_disk@,
    {
        DiskSpaceSensor { directory_on_disk }
    }

    /// The configured directory, for the caller that performs the
    /// filesystem query.
    pub fn directory(&self) -> (dir: &String)
        ensures
            dir@ == self.spec_directory(),
    {
        &self.directory_on_disk
    }

    /// One sample: turn a fresh reading of the drive's total and free
    /// bytes into the two drive observations.
    pub fn sense(&self, total_bytes: u64, free_bytes: u64) -> (obs: Vec<Observation>)
        ensures
            crate::sensors::obs_views(obs@) == spec_disk_observations(
                self.spec_directory(),
                total_bytes,
                free_bytes,
            ),
    {
        let mut obs: Vec<Observation> = Vec::new();
        obs.push(
            Observation {
                name: create_drive_metric_name(self.directory_on_disk.as_str(), "total_bytes"),
                kind: MetricKind::Count,
                value: value_or_max(total_bytes),
            },
        );
        obs.push(
            Observation {
                name: create_drive_metric_name(self.directory_on_disk.as_str(), "free_bytes"),
                kind: MetricKind::Count,
                value: value_or_max(free_bytes),
            },
        );
        proof {
            assert(crate::sensors::obs_views(obs@) =~= spec_disk_observations(
                self.spec_directory(),
                total_bytes,
                free_bytes,
            ));
        }
        obs
    }
}

} // verus!
