use portico::config::{Forwarding, Server};
use portico::ssh::{expand_tilde, forward_port_command};

fn server(private_key: Option<&str>) -> Server {
    server_with(None, private_key)
}

fn server_with(password: Option<&str>, private_key: Option<&str>) -> Server {
    Server {
        name: "server1".to_string(),
        host: "192.168.1.100".to_string(),
        port: 22,
        username: "user".to_string(),
        password: password.map(|p| p.to_string()),
        private_key: private_key.map(|k| k.to_string()),
        forwardings: vec![Forwarding {
            local_port: 8080,
            remote_host: "localhost".to_string(),
            remote_port: 80,
        }],
    }
}

#[test]
fn expand_tilde_alone_is_home() {
    assert_eq!(expand_tilde("~", Some("/home/user")), "/home/user");
}

#[test]
fn expand_tilde_with_rest() {
    assert_eq!(expand_tilde("~/.ssh/id_rsa", Some("/home/user")), "/home/user/.ssh/id_rsa");
    assert_eq!(expand_tilde("~/.ssh/id_rsa", Some("/home/user/")), "/home/user/.ssh/id_rsa");
    assert_eq!(expand_tilde("~/", Some("/home/user")), "/home/user/");
}

#[test]
fn expand_tilde_absolute_rest_replaces_home() {
    assert_eq!(expand_tilde("~//etc/key", Some("/home/user")), "/etc/key");
}

#[test]
fn expand_tilde_leaves_other_paths() {
    assert_eq!(expand_tilde("/etc/key", Some("/home/user")), "/etc/key");
    assert_eq!(expand_tilde("~user/key", Some("/home/user")), "~user/key");
    assert_eq!(expand_tilde("key~", Some("/home/user")), "key~");
    assert_eq!(expand_tilde("", Some("/home/user")), "");
}

#[test]
fn expand_tilde_without_home() {
    assert_eq!(expand_tilde("~/.ssh/id_rsa", None), "~/.ssh/id_rsa");
    assert_eq!(expand_tilde("~", None), "~");
}

#[test]
fn command_without_key() {
    let cmd = forward_port_command(&server(None), 8080, "localhost", 80, Some("/home/user"));
    let expected: Vec<String> = [
        "ssh",
        "-L",
        "8080:localhost:80",
        "-N",
        "-q",
        "-o",
        "StrictHostKeyChecking=no",
        "-o",
        "UserKnownHostsFile=/dev/null",
        "-o",
        "LogLevel=QUIET",
        "-o",
        "BatchMode=yes",
        "user@192.168.1.100",
        "-p",
        "22",
    ]
    .iter()
    .map(|s| s.to_string())
    .collect();
    assert_eq!(cmd.argv, expected);
    assert!(cmd.env.is_empty());
}

#[test]
fn command_with_key_resolves_home() {
    let cmd = forward_port_command(&server(Some("~/.ssh/id_ed25519")), 5432, "db.internal", 5432, Some("/root"));
    assert_eq!(cmd.argv.len(), 18);
    assert_eq!(cmd.argv[2], "5432:db.internal:5432");
    assert_eq!(cmd.argv[12], "BatchMode=yes");
    assert_eq!(cmd.argv[16], "-i");
    assert_eq!(cmd.argv[17], "/root/.ssh/id_ed25519");
    assert!(cmd.env.is_empty());
}

#[test]
fn command_with_password_only_hands_password_to_ssh() {
    let cmd = forward_port_command(&server_with(Some("password"), None), 8080, "localhost", 80, None);
    let expected: Vec<String> = [
        "sshpass",
        "-e",
        "ssh",
        "-L",
        "8080:localhost:80",
        "-N",
        "-q",
        "-o",
        "StrictHostKeyChecking=no",
        "-o",
        "UserKnownHostsFile=/dev/null",
        "-o",
        "LogLevel=QUIET",
        "user@192.168.1.100",
        "-p",
        "22",
    ]
    .iter()
    .map(|s| s.to_string())
    .collect();
    assert_eq!(cmd.argv, expected);
    assert_eq!(cmd.env, vec![("SSHPASS".to_string(), "password".to_string())]);
}

#[test]
fn command_with_password_and_key_uses_the_key() {
    let cmd = forward_port_command(&server_with(Some("pw"), Some("/k")), 1, "h", 2, None);
    assert_eq!(cmd.argv[0], "ssh");
    assert_eq!(cmd.argv[12], "BatchMode=yes");
    assert_eq!(cmd.argv[17], "/k");
    assert!(cmd.env.is_empty());
}
