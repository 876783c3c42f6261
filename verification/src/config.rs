//! The agent's decoded configuration, and the substitution applied to its
//! string-valued fields.

use crate::substitution::{spec_substitute, substitute_bindings_in_string, VariableBindings};
use vstd::prelude::*;

verus! {

/// The configuration snapshot: decoded once at startup from the
/// substituted configuration text and never mutated.  Its disk list
/// decides how many disk-space sensors are built.
pub struct Config {
    pub hostname: String,
    pub update_interval_ms: u64,
    pub statsd_url: String,
    pub statsd_port: u16,
    pub disks: Vec<String>,
}

/// Apply the binding table to the configuration fields that may themselves
/// hold `${...}` tokens loaded verbatim from the file: the hostname and
/// the statsd host.  The raw text and these decoded values are rewritten
/// by the identical algorithm with the identical table.
pub fn substitute_variables(config: Config, bindings: &VariableBindings) -> (r: Config)
    ensures
        r.hostname@ == spec_substitute(config.hostname@, bindings@),
        r.statsd_url@ == spec_substitute(config.statsd_url@, bindings@),
        r.update_interval_ms == config.update_interval_ms,
        r.statsd_port == config.statsd_port,
        r.disks@ == config.disks@,
{
    let hostname = substitute_bindings_in_string(config.hostname.as_str(), bindings);
    let statsd_url = substitute_bindings_in_string(config.statsd_url.as_str(), bindings);
    Config {
        hostname,
        update_interval_ms: config.update_interval_ms,
        statsd_url,
        statsd_port: config.statsd_port,
        disks: config.disks,
    }
}

} // verus!
