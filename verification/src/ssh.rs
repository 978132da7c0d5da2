use crate::config::Server;
use crate::text::{decimal, decimal_string, is_numeral, lemma_decimal_denotes, numeral_value, push_decimal};
use vstd::prelude::*;

verus! {

/// The view of an optional text.
pub open spec fn opt_view(s: Option<&str>) -> Option<Seq<char>> {
    match s {
        Some(t) => Some(t@),
        None => None,
    }
}

/// `rest` appended to the path `base` on Unix: an absolute `rest` replaces
/// `base`; otherwise a separator goes between them unless `base` is empty
/// or already ends in one.
pub open spec fn path_join(base: Seq<char>, rest: Seq<char>) -> Seq<char> {
    if rest.len() > 0 && rest[0] == '/' {
        rest
    } else if base.len() > 0 && base.last() != '/' {
        base + seq!['/'] + rest
    } else {
        base + rest
    }
}

/// A path with a leading `~` resolved against the home directory: `~` alone
/// is the home directory and `~/rest` is `rest` within it. Any other path,
/// and any path where the home directory is unknown, stays as it is.
pub open spec fn expanded_path(path: Seq<char>, home: Option<Seq<char>>) -> Seq<char> {
    if path.len() > 0 && path[0] == '~' {
        match home {
            Some(h) => if path.len() == 1 {
                h
            } else if path[1] == '/' {
                path_join(h, path.subrange(2, path.len() as int))
            } else {
                path
            },
            None => path,
        }
    } else {
        path
    }
}

/// Appends `rest` to the path `base` as `path_join` says.
fn join_path(base: &str, rest: &str) -> (r: String)
    ensures
        r@ == path_join(base@, rest@),
{
    let rest_len = rest.unicode_len();
    if rest_len > 0 && rest.get_char(0) == '/' {
        return String::from_str(rest);
    }
    let base_len = base.unicode_len();
    let mut joined = String::from_str(base);
    if base_len > 0 && base.get_char(base_len - 1) != '/' {
        proof { reveal_strlit("/"); }
        joined.append("/");
    }
    joined.append(rest);
    joined
}

/// Resolves a leading `~` in `path` against the home directory `home`.
pub fn expand_tilde(path: &str, home: Option<&str>) -> (r: String)
    ensures
        r@ == expanded_path(path@, opt_view(home)),
{
    let len = path.unicode_len();
    if len > 0 && path.get_char(0) == '~' {
        if let Some(h) = home {
            if len == 1 {
                return String::from_str(h);
            }
            if path.get_char(1) == '/' {
                let rest = path.substring_char(2, len);
                return join_path(h, rest);
            }
        }
    }
    String::from_str(path)
}

/// The `-L` operand of a forwarding: `local:remote_host:remote`.
pub open spec fn forward_spec(local_port: u16, remote_host: Seq<char>, remote_port: u16) -> Seq<char> {
    decimal(local_port as nat) + ":"@ + remote_host + ":"@ + decimal(remote_port as nat)
}

/// Whether a server signs in with its password: it names a password and no
/// private key.
pub open spec fn signs_in_with_password(server: Server) -> bool {
    server.private_key is None && server.password is Some
}

/// The program that runs ssh: `sshpass -e` in front of `ssh` where the server
/// signs in with its password (sshpass answers ssh's password prompt with the
/// password it finds in the environment), `ssh` alone otherwise.
pub open spec fn command_prefix(server: Server) -> Seq<Seq<char>> {
    if signs_in_with_password(server) {
        seq!["sshpass"@, "-e"@, "ssh"@]
    } else {
        seq!["ssh"@]
    }
}

/// The options that forbid prompts: `-o BatchMode=yes`, except where the
/// server signs in with its password, which ssh asks for at a prompt.
pub open spec fn prompt_options(server: Server) -> Seq<Seq<char>> {
    if signs_in_with_password(server) {
        Seq::<Seq<char>>::empty()
    } else {
        seq!["-o"@, "BatchMode=yes"@]
    }
}

/// The command that keeps a forwarding open, program first: the program,
/// the forwarding, no remote command, quiet, host keys neither checked nor
/// stored, no prompts unless a password is to be typed, the user at the
/// host, the port, and the private key (with `~` resolved) where the server
/// names one.
pub open spec fn forward_command(
    server: Server,
    local_port: u16,
    remote_host: Seq<char>,
    remote_port: u16,
    home: Option<Seq<char>>,
) -> Seq<Seq<char>> {
    command_prefix(server) + seq![
        "-L"@,
        forward_spec(local_port, remote_host, remote_port),
        "-N"@,
        "-q"@,
        "-o"@,
        "StrictHostKeyChecking=no"@,
        "-o"@,
        "UserKnownHostsFile=/dev/null"@,
        "-o"@,
        "LogLevel=QUIET"@,
    ] + prompt_options(server) + seq![
        server.username@ + "@"@ + server.host@,
        "-p"@,
        decimal(server.port as nat),
    ] + match server.private_key {
        Some(key) => seq!["-i"@, expanded_path(key@, home)],
        None => Seq::<Seq<char>>::empty(),
    }
}

/// The environment the command runs with: `SSHPASS` set to the password
/// where the server signs in with its password, nothing otherwise.
pub open spec fn forward_environment(server: Server) -> Seq<(Seq<char>, Seq<char>)> {
    if signs_in_with_password(server) {
        seq![("SSHPASS"@, server.password->0@)]
    } else {
        Seq::empty()
    }
}

/// A command line, program first, and the variables to set for it.
pub struct ForwardCommand {
    pub argv: Vec<String>,
    pub env: Vec<(String, String)>,
}

/// The view of environment variables: their names and values as texts.
pub open spec fn env_view(env: Seq<(String, String)>) -> Seq<(Seq<char>, Seq<char>)> {
    env.map_values(|e: (String, String)| (e.0@, e.1@))
}

/// The command line, program first, and its environment, that forward
/// `local_port` to `remote_host:remote_port` through `server`; `home` is the
/// home directory that a private key path may start from. A server with a
/// password and no private key signs in with the password, handed to ssh
/// through `sshpass` and the environment.
pub fn forward_port_command(
    server: &Server,
    local_port: u16,
    remote_host: &str,
    remote_port: u16,
    home: Option<&str>,
) -> (cmd: ForwardCommand)
    ensures
        cmd.argv@.map_values(|s: String| s@) == forward_command(
            *server,
            local_port,
            remote_host@,
            remote_port,
            opt_view(home),
        ),
        env_view(cmd.env@) == forward_environment(*server),
{
    let with_password = server.private_key.is_none() && server.password.is_some();
    let mut argv: Vec<String> = Vec::new();
    if with_password {
        argv.push(String::from_str("sshpass"));
        argv.push(String::from_str("-e"));
    }
    argv.push(String::from_str("ssh"));
    argv.push(String::from_str("-L"));
    let mut spec = decimal_string(local_port as u64);
    spec.append(":");
    spec.append(remote_host);
    spec.append(":");
    push_decimal(&mut spec, remote_port as u64);
    argv.push(spec);
    argv.push(String::from_str("-N"));
    argv.push(String::from_str("-q"));
    argv.push(String::from_str("-o"));
    argv.push(String::from_str("StrictHostKeyChecking=no"));
    argv.push(String::from_str("-o"));
    argv.push(String::from_str("UserKnownHostsFile=/dev/null"));
    argv.push(String::from_str("-o"));
    argv.push(String::from_str("LogLevel=QUIET"));
    if !with_password {
        argv.push(String::from_str("-o"));
        argv.push(String::from_str("BatchMode=yes"));
    }
    let mut login = server.username.clone();
    login.append("@");
    login.append(server.host.as_str());
    argv.push(login);
    argv.push(String::from_str("-p"));
    argv.push(decimal_string(server.port as u64));
    match &server.private_key {
        Some(key) => {
            argv.push(String::from_str("-i"));
            argv.push(expand_tilde(key.as_str(), home));
        },
        None => {},
    }
    assert(argv@.map_values(|s: String| s@) =~= forward_command(
        *server,
        local_port,
        remote_host@,
        remote_port,
        opt_view(home),
    ));
    let mut env: Vec<(String, String)> = Vec::new();
    if with_password {
        match &server.password {
            Some(password) => {
                env.push((String::from_str("SSHPASS"), password.clone()));
            },
            None => {},
        }
    }
    assert(env_view(env@) =~= forward_environment(*server));
    ForwardCommand { argv, env }
}

/// Only a path that starts with `~` changes, and only where the home
/// directory is known; `~` alone becomes the home directory.
pub proof fn lemma_expand_tilde_only_home_paths(path: Seq<char>, home: Option<Seq<char>>)
    ensures
        !(path.len() > 0 && path[0] == '~') ==> expanded_path(path, home) == path,
        home is None ==> expanded_path(path, home) == path,
        path == seq!['~'] && home is Some ==> expanded_path(path, home) == home->0,
{
}

/// A key path inside the home directory stays inside it: for a relative
/// rest, the expanded path starts with the home directory.
pub proof fn lemma_expanded_key_within_home(home: Seq<char>, rest: Seq<char>)
    requires
        !(rest.len() > 0 && rest[0] == '/'),
    ensures
        path_join(home, rest).subrange(0, home.len() as int) == home,
        expanded_path(seq!['~', '/'] + rest, Some(home)) == path_join(home, rest),
{
    let p = seq!['~', '/'] + rest;
    assert(p.subrange(2, p.len() as int) =~= rest);
    assert(path_join(home, rest).subrange(0, home.len() as int) =~= home);
}

/// A server with a password and no private key hands its password to ssh:
/// the command runs under `sshpass -e` with `SSHPASS` set to the password,
/// and does not forbid the password prompt. A server with a private key, or
/// without a password, runs `ssh` alone with prompts forbidden and nothing
/// in the environment.
pub proof fn lemma_password_sign_in(
    server: Server,
    local_port: u16,
    remote_host: Seq<char>,
    remote_port: u16,
    home: Option<Seq<char>>,
)
    ensures
        signs_in_with_password(server) ==> {
            let cmd = forward_command(server, local_port, remote_host, remote_port, home);
            &&& cmd.take(3) == seq!["sshpass"@, "-e"@, "ssh"@]
            &&& forward_environment(server) == seq![("SSHPASS"@, server.password->0@)]
            &&& prompt_options(server).len() == 0
        },
        !signs_in_with_password(server) ==> {
            let cmd = forward_command(server, local_port, remote_host, remote_port, home);
            &&& cmd[0] == "ssh"@
            &&& cmd.subrange(11, 13) == seq!["-o"@, "BatchMode=yes"@]
            &&& forward_environment(server).len() == 0
        },
{
    let cmd = forward_command(server, local_port, remote_host, remote_port, home);
    if signs_in_with_password(server) {
        assert(cmd.take(3) =~= seq!["sshpass"@, "-e"@, "ssh"@]);
    } else {
        assert(cmd.subrange(11, 13) =~= seq!["-o"@, "BatchMode=yes"@]);
    }
}

/// The forwarding command reaches the configured server: somewhere in it
/// `-p` is followed by a numeral that denotes the server's port, just after
/// `user@host`; somewhere `-L` is followed by `L:remote_host:R` with numerals
/// that denote the local and remote ports; and the command ends with `-i`
/// and the resolved key where the server names a key, or with the port
/// numeral where it does not.
pub proof fn lemma_forward_command_targets_server(
    server: Server,
    local_port: u16,
    remote_host: Seq<char>,
    remote_port: u16,
    home: Option<Seq<char>>,
)
    ensures
        ({
            let cmd = forward_command(server, local_port, remote_host, remote_port, home);
            exists|k: int|
                1 <= k && k + 1 < cmd.len() && #[trigger] cmd[k] == "-p"@ && cmd[k - 1]
                    == server.username@ + "@"@ + server.host@ && is_numeral(cmd[k + 1])
                    && numeral_value(cmd[k + 1]) == server.port
        }),
        ({
            let cmd = forward_command(server, local_port, remote_host, remote_port, home);
            exists|k: int, a: Seq<char>, b: Seq<char>|
                #![trigger cmd[k], numeral_value(a), numeral_value(b)]
                0 <= k && k + 1 < cmd.len() && cmd[k] == "-L"@ && cmd[k + 1] == a + ":"@
                    + remote_host + ":"@ + b && is_numeral(a) && numeral_value(a) == local_port
                    && is_numeral(b) && numeral_value(b) == remote_port
        }),
        ({
            let cmd = forward_command(server, local_port, remote_host, remote_port, home);
            match server.private_key {
                Some(key) => cmd.len() >= 2 && cmd[cmd.len() - 2] == "-i"@ && cmd.last()
                    == expanded_path(key@, home),
                None => cmd.len() >= 2 && cmd[cmd.len() - 2] == "-p"@ && is_numeral(cmd.last())
                    && numeral_value(cmd.last()) == server.port,
            }
        }),
{
    let cmd = forward_command(server, local_port, remote_host, remote_port, home);
    let pre = command_prefix(server).len() as int;
    let k = pre + 10 + prompt_options(server).len() as int + 1;
    lemma_decimal_denotes(server.port as nat);
    lemma_decimal_denotes(local_port as nat);
    lemma_decimal_denotes(remote_port as nat);
    assert(cmd[k] == "-p"@);
    assert(cmd[k - 1] == server.username@ + "@"@ + server.host@);
    assert(cmd[k + 1] == decimal(server.port as nat));
    assert(cmd[pre] == "-L"@);
    assert(cmd[pre + 1] == decimal(local_port as nat) + ":"@ + remote_host + ":"@ + decimal(
        remote_port as nat,
    ));
}

/// `~/rest` with a relative `rest` is `rest` inside the home directory:
/// the home directory, then exactly one separator (none added where the
/// home directory already ends in one), then `rest`. An absolute `rest`
/// stands alone.
pub proof fn lemma_expand_tilde_joins_once(home: Seq<char>, rest: Seq<char>)
    requires
        home.len() > 0,
    ensures
        !(rest.len() > 0 && rest[0] == '/') && home.last() != '/' ==> {
            let e = expanded_path(seq!['~', '/'] + rest, Some(home));
            &&& e.len() == home.len() + 1 + rest.len()
            &&& e.take(home.len() as int) == home
            &&& e[home.len() as int] == '/'
            &&& e.skip(home.len() as int + 1) == rest
        },
        !(rest.len() > 0 && rest[0] == '/') && home.last() == '/' ==> expanded_path(
            seq!['~', '/'] + rest,
            Some(home),
        ) == home + rest,
        rest.len() > 0 && rest[0] == '/' ==> expanded_path(seq!['~', '/'] + rest, Some(home))
            == rest,
{
    let p = seq!['~', '/'] + rest;
    assert(p.subrange(2, p.len() as int) =~= rest);
    let e = expanded_path(p, Some(home));
    if !(rest.len() > 0 && rest[0] == '/') && home.last() != '/' {
        assert(e.take(home.len() as int) =~= home);
        assert(e.skip(home.len() as int + 1) =~= rest);
    }
}

} // verus!
