use portico::config::{Config, Forwarding, Server, TimeoutConfig};

fn config_with(timeout: Option<TimeoutConfig>) -> Config {
    Config {
        servers: vec![Server {
            name: "server1".to_string(),
            host: "192.168.1.100".to_string(),
            port: 22,
            username: "user".to_string(),
            password: Some("password".to_string()),
            private_key: None,
            forwardings: vec![Forwarding {
                local_port: 8080,
                remote_host: "localhost".to_string(),
                remote_port: 80,
            }],
        }],
        timeout,
    }
}

#[test]
fn timeouts_default_without_section() {
    let config = config_with(None);
    assert_eq!(config.get_connect_timeout_secs(), 5);
    assert_eq!(config.get_read_timeout_secs(), 10);
    assert_eq!(config.get_write_timeout_secs(), 10);
}

#[test]
fn timeouts_default_for_missing_fields() {
    let config = config_with(Some(TimeoutConfig {
        connect_timeout_secs: None,
        read_timeout_secs: Some(3),
        write_timeout_secs: None,
    }));
    assert_eq!(config.get_connect_timeout_secs(), 5);
    assert_eq!(config.get_read_timeout_secs(), 3);
    assert_eq!(config.get_write_timeout_secs(), 10);
}

#[test]
fn timeouts_from_readme_example() {
    let config = config_with(Some(TimeoutConfig {
        connect_timeout_secs: Some(5),
        read_timeout_secs: Some(10),
        write_timeout_secs: Some(10),
    }));
    assert_eq!(config.get_connect_timeout_secs(), 5);
    assert_eq!(config.get_read_timeout_secs(), 10);
    assert_eq!(config.get_write_timeout_secs(), 10);
}

#[test]
fn timeouts_configured_values_win() {
    let config = config_with(Some(TimeoutConfig {
        connect_timeout_secs: Some(0),
        read_timeout_secs: Some(u64::MAX),
        write_timeout_secs: Some(42),
    }));
    assert_eq!(config.get_connect_timeout_secs(), 0);
    assert_eq!(config.get_read_timeout_secs(), u64::MAX);
    assert_eq!(config.get_write_timeout_secs(), 42);
}
