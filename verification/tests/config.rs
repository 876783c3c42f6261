use lines::config::{substitute_variables, Config};
use lines::substitution::VariableBindings;

#[test]
fn decoded_fields_get_the_same_substitution() {
    let mut bindings = VariableBindings::new();
    bindings.insert("hostname".to_string(), "myhost".to_string());
    let config = Config {
        hostname: "${hostname}".to_string(),
        update_interval_ms: 60_000,
        statsd_url: "stats.${hostname}.example".to_string(),
        statsd_port: 8125,
        disks: vec!["/".to_string(), "/data".to_string()],
    };
    let config = substitute_variables(config, &bindings);
    assert_eq!(config.hostname, "myhost");
    assert_eq!(config.statsd_url, "stats.myhost.example");
    assert_eq!(config.update_interval_ms, 60_000);
    assert_eq!(config.statsd_port, 8125);
    assert_eq!(config.disks, vec!["/".to_string(), "/data".to_string()]);
}

#[test]
fn unresolvable_fields_pass_through() {
    let bindings = VariableBindings::new();
    let config = Config {
        hostname: "${hostname}".to_string(),
        update_interval_ms: 1,
        statsd_url: "stats.local".to_string(),
        statsd_port: 1,
        disks: vec![],
    };
    let config = substitute_variables(config, &bindings);
    assert_eq!(config.hostname, "${hostname}");
    assert_eq!(config.statsd_url, "stats.local");
}
