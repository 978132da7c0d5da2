use portico::procnet::{listening_socket, listening_sockets, port_owners, socket_inode};

const TCP_TABLE: &str = "  sl  local_address rem_address   st tx_queue rx_queue tr tm->when retrnsmt   uid  timeout inode
   0: 0100007F:1F90 00000000:0000 0A 00000000:00000000 00:00000000 00000000  1000        0 123456 1 0000000000000000 100 0 0 10 0
   1: 0100007F:D431 0100007F:1F90 01 00000000:00000000 00:00000000 00000000  1000        0 654321 1 0000000000000000 20 4 30 10 -1
   2: 00000000:0016 00000000:0000 0A 00000000:00000000 00:00000000 00000000     0        0 777 1 0000000000000000 100 0 0 10 0
";

const TCP6_LINE: &str = "   0: 00000000000000000000000000000000:20FB 00000000000000000000000000000000:0000 0A 00000000:00000000 00:00000000 00000000  1000        0 4242 1 0000000000000000 100 0 0 10 0";

#[test]
fn listening_line_gives_port_and_inode() {
    let line = TCP_TABLE.lines().nth(1).unwrap();
    assert_eq!(listening_socket(line.as_bytes()), Some((8080, 123456)));
    assert_eq!(listening_socket(TCP6_LINE.as_bytes()), Some((8443, 4242)));
}

#[test]
fn other_lines_give_nothing() {
    assert_eq!(listening_socket(TCP_TABLE.lines().next().unwrap().as_bytes()), None);
    assert_eq!(listening_socket(TCP_TABLE.lines().nth(2).unwrap().as_bytes()), None);
    assert_eq!(listening_socket(b""), None);
    assert_eq!(listening_socket(b"   0: 0100007F:1F9G 00000000:0000 0A a b c d e 1"), None);
    assert_eq!(listening_socket(b"   0: 0100007F:1F90 00000000:0000 0A a b c d e 12x"), None);
}

#[test]
fn whole_table_gives_listening_sockets_in_order() {
    assert_eq!(listening_sockets(TCP_TABLE.as_bytes()), vec![(8080, 123456), (22, 777)]);
    assert_eq!(listening_sockets(b""), vec![]);
}

#[test]
fn socket_links() {
    assert_eq!(socket_inode(b"socket:[123456]"), Some(123456));
    assert_eq!(socket_inode(b"socket:[]"), None);
    assert_eq!(socket_inode(b"pipe:[123]"), None);
    assert_eq!(socket_inode(b"/dev/null"), None);
    assert_eq!(socket_inode(b"socket:[12a]"), None);
    assert_eq!(socket_inode(b"socket:[99999999999999999999]"), None);
}

#[test]
fn ports_joined_with_owners() {
    let sockets = vec![(8080, 1), (22, 2), (8443, 3)];
    let owners = vec![(3, "nginx".to_string()), (1, "ssh".to_string()), (1, "later".to_string())];
    assert_eq!(
        port_owners(&sockets, &owners),
        vec![(8080, "ssh".to_string()), (8443, "nginx".to_string())]
    );
}
