use portico::monitor::{ForwardingStatus, Monitor};

#[test]
fn new_monitor_is_empty() {
    let m = Monitor::new();
    assert!(m.iter_servers().is_empty());
    assert!(!m.has_active_forwardings());
    assert_eq!(m.row_count(), Some(0));
    assert_eq!(m.total_forwardings(), 0);
    assert!(m.get_process_for_port(8080).is_none());
    assert!(m.get_traffic_for_port(8080).is_none());
}

#[test]
fn add_port_sets_unknown_and_no_traffic() {
    let mut m = Monitor::new();
    m.add_port(8080);
    assert_eq!(m.get_process_for_port(8080).map(|s| s.as_str()), Some("Unknown"));
    assert_eq!(m.get_traffic_for_port(8080), Some(&(0, 0)));
    assert!(m.get_process_for_port(8081).is_none());
}

#[test]
fn add_port_twice_is_once() {
    let mut m = Monitor::new();
    m.add_port(8080);
    m.add_port(8080);
    assert_eq!(m.get_process_for_port(8080).map(|s| s.as_str()), Some("Unknown"));
    assert_eq!(m.get_traffic_for_port(8080), Some(&(0, 0)));
}

#[test]
fn servers_and_forwardings_are_recorded() {
    let mut m = Monitor::new();
    m.add_server("a".to_string(), "10.0.0.1".to_string(), 22, "alice".to_string());
    m.add_server("b".to_string(), "10.0.0.2".to_string(), 2222, "bob".to_string());
    assert_eq!(m.row_count(), Some(2));
    assert!(!m.has_active_forwardings());

    m.add_forwarding_to_server(&"b".to_string(), 8080, "localhost".to_string(), 80);
    assert!(m.has_active_forwardings());
    assert_eq!(m.row_count(), Some(3));
    assert_eq!(m.total_forwardings(), 1);

    let servers = m.iter_servers();
    assert_eq!(servers.len(), 2);
    assert!(servers[0].forwardings.is_empty());
    let f = &servers[1].forwardings[0];
    assert_eq!(f.local_port, 8080);
    assert_eq!(f.remote_host, "localhost");
    assert_eq!(f.remote_port, 80);
    assert_eq!(f.status, ForwardingStatus::Active);
    assert_eq!(m.get_process_for_port(8080).map(|s| s.as_str()), Some("Unknown"));
}

#[test]
fn forwarding_for_unknown_server_changes_nothing() {
    let mut m = Monitor::new();
    m.add_server("a".to_string(), "10.0.0.1".to_string(), 22, "alice".to_string());
    m.add_forwarding_to_server(&"zzz".to_string(), 8080, "localhost".to_string(), 80);
    assert_eq!(m.row_count(), Some(1));
    assert!(!m.has_active_forwardings());
    assert!(m.get_process_for_port(8080).is_none());
}

#[test]
fn forwarding_goes_to_first_server_of_that_name() {
    let mut m = Monitor::new();
    m.add_server("a".to_string(), "h1".to_string(), 22, "u".to_string());
    m.add_server("a".to_string(), "h2".to_string(), 22, "u".to_string());
    m.add_forwarding_to_server(&"a".to_string(), 9000, "x".to_string(), 90);
    let servers = m.iter_servers();
    assert_eq!(servers[0].forwardings.len(), 1);
    assert_eq!(servers[1].forwardings.len(), 0);
}

#[test]
fn update_keeps_what_is_known() {
    let mut m = Monitor::new();
    m.add_server("a".to_string(), "h".to_string(), 22, "u".to_string());
    m.add_forwarding_to_server(&"a".to_string(), 8080, "localhost".to_string(), 80);
    m.update(&Vec::new());
    assert_eq!(m.row_count(), Some(2));
    assert!(m.has_active_forwardings());
    assert_eq!(m.get_traffic_for_port(8080), Some(&(0, 0)));
}

#[test]
fn update_records_observed_processes_on_followed_ports() {
    let mut m = Monitor::new();
    m.add_port(8080);
    m.add_port(9090);
    let observed = vec![
        (8080, "ssh".to_string()),
        (22, "sshd".to_string()),
        (8080, "other".to_string()),
    ];
    m.update(&observed);
    assert_eq!(m.get_process_for_port(8080).map(|s| s.as_str()), Some("ssh"));
    assert_eq!(m.get_process_for_port(9090).map(|s| s.as_str()), Some("Unknown"));
    assert!(m.get_process_for_port(22).is_none());
    m.update(&observed);
    assert_eq!(m.get_process_for_port(8080).map(|s| s.as_str()), Some("ssh"));
    m.update(&vec![(9090, "python3".to_string())]);
    assert_eq!(m.get_process_for_port(8080).map(|s| s.as_str()), Some("ssh"));
    assert_eq!(m.get_process_for_port(9090).map(|s| s.as_str()), Some("python3"));
    assert_eq!(m.get_traffic_for_port(9090), Some(&(0, 0)));
}
