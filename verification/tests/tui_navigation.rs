use portico::monitor::{ForwardingStatus, Monitor};
use portico::tui::{
    byte_count_text, format_duration, process_text, remote_text, server_header, status_label,
    status_table, App, ByteScale, Key, KeyPress, TableRow,
};

fn key(code: Key) -> KeyPress {
    KeyPress { code, ctrl: false }
}

/// Two servers, the second with two forwardings: four rows.
fn monitor_with_rows() -> Monitor {
    let mut m = Monitor::new();
    m.add_server("a".to_string(), "h1".to_string(), 22, "u".to_string());
    m.add_server("b".to_string(), "h2".to_string(), 22, "u".to_string());
    m.add_forwarding_to_server(&"b".to_string(), 8080, "localhost".to_string(), 80);
    m.add_forwarding_to_server(&"b".to_string(), 8443, "localhost".to_string(), 443);
    m
}

#[test]
fn new_app_selects_first_row() {
    let app = App::new();
    assert_eq!(app.selected(), Some(0));
    assert!(!app.should_quit());
}

#[test]
fn next_moves_down_and_wraps() {
    let m = monitor_with_rows();
    let mut app = App::new();
    app.next(&m);
    assert_eq!(app.selected(), Some(1));
    app.next(&m);
    app.next(&m);
    assert_eq!(app.selected(), Some(3));
    app.next(&m);
    assert_eq!(app.selected(), Some(0));
}

#[test]
fn previous_wraps_to_last() {
    let m = monitor_with_rows();
    let mut app = App::new();
    app.previous(&m);
    assert_eq!(app.selected(), Some(3));
    app.previous(&m);
    assert_eq!(app.selected(), Some(2));
}

#[test]
fn previous_undoes_next_on_every_row() {
    let m = monitor_with_rows();
    let mut app = App::new();
    for row in 0..4 {
        assert_eq!(app.selected(), Some(row));
        app.next(&m);
        app.previous(&m);
        assert_eq!(app.selected(), Some(row));
        app.next(&m);
    }
    assert_eq!(app.selected(), Some(0));
}

#[test]
fn keys_move_and_quit() {
    let m = monitor_with_rows();
    let mut app = App::new();
    app.handle_key(key(Key::Down), &m);
    app.handle_key(key(Key::Char('j')), &m);
    assert_eq!(app.selected(), Some(2));
    app.handle_key(key(Key::Up), &m);
    app.handle_key(key(Key::Char('k')), &m);
    assert_eq!(app.selected(), Some(0));
    app.handle_key(key(Key::Char('x')), &m);
    app.handle_key(key(Key::Other), &m);
    app.handle_key(key(Key::Char('c')), &m);
    assert!(!app.should_quit());
    assert_eq!(app.selected(), Some(0));
    app.handle_key(KeyPress { code: Key::Char('c'), ctrl: true }, &m);
    assert!(app.should_quit());
    assert_eq!(app.selected(), Some(0));
}

#[test]
fn q_and_esc_quit() {
    let m = monitor_with_rows();
    let mut app = App::new();
    app.handle_key(key(Key::Char('q')), &m);
    assert!(app.should_quit());
    let mut app = App::new();
    app.handle_key(key(Key::Esc), &m);
    assert!(app.should_quit());
}

#[test]
fn duration_texts() {
    assert_eq!(format_duration(0), "0s");
    assert_eq!(format_duration(59), "59s");
    assert_eq!(format_duration(60), "1m0s");
    assert_eq!(format_duration(61), "1m1s");
    // Hours are every 24 minutes: 1440 s is 24 minutes, one "hour".
    assert_eq!(format_duration(1440), "1h24m");
    assert_eq!(format_duration(3600), "2h0m");
    // Days are every 24 such hours: 576 minutes.
    assert_eq!(format_duration(34560), "1d0h");
    assert_eq!(format_duration(100000), "2d21h");
}

#[test]
fn byte_scales() {
    assert_eq!(ByteScale::of(0), ByteScale::Bytes);
    assert_eq!(ByteScale::of(1023), ByteScale::Bytes);
    assert_eq!(ByteScale::of(1024), ByteScale::Kilobytes);
    assert_eq!(ByteScale::of(1048575), ByteScale::Kilobytes);
    assert_eq!(ByteScale::of(1048576), ByteScale::Megabytes);
    assert_eq!(ByteScale::of(1073741824), ByteScale::Gigabytes);
    assert_eq!(ByteScale::of(u64::MAX), ByteScale::Gigabytes);
    assert_eq!(ByteScale::Megabytes.divisor(), 1048576);
    assert_eq!(ByteScale::Gigabytes.suffix(), "GB");
    assert_eq!(ByteScale::Bytes.suffix(), "B");
}

#[test]
fn table_texts() {
    let mut m = monitor_with_rows();
    let servers = m.iter_servers();
    assert_eq!(server_header(&servers[0]), "a | u@h1:22 | 0 forwardings");
    assert_eq!(server_header(&servers[1]), "b | u@h2:22 | 2 forwardings");
    assert_eq!(status_label(ForwardingStatus::Active), "  ● Active");
    assert_eq!(status_label(ForwardingStatus::Error), "  ✗ Error");
    assert_eq!(status_label(ForwardingStatus::Unknown), "  ? Unknown");
    assert_eq!(remote_text("localhost", 80), "localhost:80");
    assert_eq!(process_text(&m, 8080), "Unknown");
    assert_eq!(process_text(&m, 1), "-");
    m.add_port(1);
    assert_eq!(process_text(&m, 1), "Unknown");
}

#[test]
fn status_table_rows_in_order() {
    let mut m = monitor_with_rows();
    m.update(&vec![(8443, "ssh".to_string())]);
    let rows = status_table(&m);
    assert_eq!(rows.len(), 4);
    match &rows[0] {
        TableRow::Server(text) => assert_eq!(text, "a | u@h1:22 | 0 forwardings"),
        TableRow::Forwarding(_) => panic!("first row is a server"),
    }
    match &rows[1] {
        TableRow::Server(text) => assert_eq!(text, "b | u@h2:22 | 2 forwardings"),
        TableRow::Forwarding(_) => panic!("second row is a server"),
    }
    match &rows[2] {
        TableRow::Forwarding(f) => {
            assert_eq!((f.server, f.forwarding), (1, 0));
            assert_eq!(f.status, "  ● Active");
            assert_eq!(f.local_port, "8080");
            assert_eq!(f.remote, "localhost:80");
            assert_eq!(f.process, "Unknown");
        }
        TableRow::Server(_) => panic!("third row is a forwarding"),
    }
    match &rows[3] {
        TableRow::Forwarding(f) => {
            assert_eq!((f.server, f.forwarding), (1, 1));
            assert_eq!(f.local_port, "8443");
            assert_eq!(f.remote, "localhost:443");
            assert_eq!(f.process, "ssh");
        }
        TableRow::Server(_) => panic!("fourth row is a forwarding"),
    }
}

#[test]
fn status_table_of_empty_monitor() {
    assert!(status_table(&Monitor::new()).is_empty());
}

#[test]
fn whole_byte_texts() {
    assert_eq!(byte_count_text(0), "0 B");
    assert_eq!(byte_count_text(1023), "1023 B");
}

#[test]
fn up_with_no_rows_from_a_later_row() {
    let m = Monitor::new();
    let mut app = App::new();
    app.handle_key(KeyPress { code: Key::Down, ctrl: false }, &monitor_with_rows());
    assert_eq!(app.selected(), Some(1));
    app.previous(&m);
    assert_eq!(app.selected(), Some(0));
}
