use vstd::prelude::*;

verus! {

/// Seconds to wait for a connection when the configuration names none.
pub const DEFAULT_CONNECT_TIMEOUT_SECS: u64 = 5;

/// Seconds to wait for a read when the configuration names none.
pub const DEFAULT_READ_TIMEOUT_SECS: u64 = 10;

/// Seconds to wait for a write when the configuration names none.
pub const DEFAULT_WRITE_TIMEOUT_SECS: u64 = 10;

/// The whole configuration file: the servers and their forwardings, and the
/// optional timeouts.
#[derive(Debug, Clone)]
pub struct Config {
    pub servers: Vec<Server>,
    pub timeout: Option<TimeoutConfig>,
}

/// Timeouts in seconds; each one may be left out.
#[derive(Debug, Clone)]
pub struct TimeoutConfig {
    pub connect_timeout_secs: Option<u64>,
    pub read_timeout_secs: Option<u64>,
    pub write_timeout_secs: Option<u64>,
}

/// One SSH server with the forwardings to set up through it.
#[derive(Debug, Clone)]
pub struct Server {
    pub name: String,
    pub host: String,
    pub port: u16,
    pub username: String,
    pub password: Option<String>,
    pub private_key: Option<String>,
    pub forwardings: Vec<Forwarding>,
}

/// A local port forwarded to `remote_host:remote_port` on the far side.
#[derive(Debug, Clone)]
pub struct Forwarding {
    pub local_port: u16,
    pub remote_host: String,
    pub remote_port: u16,
}

/// The value of an optional setting, or its default when it is absent.
pub open spec fn setting_or(value: Option<u64>, default: u64) -> u64 {
    match value {
        Some(v) => v,
        None => default,
    }
}

impl Config {
    /// The connect timeout that takes effect: the configured one, else 5.
    pub open spec fn spec_connect_timeout_secs(&self) -> u64 {
        match self.timeout {
            Some(t) => setting_or(t.connect_timeout_secs, DEFAULT_CONNECT_TIMEOUT_SECS),
            None => DEFAULT_CONNECT_TIMEOUT_SECS,
        }
    }

    /// The read timeout that takes effect: the configured one, else 10.
    pub open spec fn spec_read_timeout_secs(&self) -> u64 {
        match self.timeout {
            Some(t) => setting_or(t.read_timeout_secs, DEFAULT_READ_TIMEOUT_SECS),
            None => DEFAULT_READ_TIMEOUT_SECS,
        }
    }

    /// The write timeout that takes effect: the configured one, else 10.
    pub open spec fn spec_write_timeout_secs(&self) -> u64 {
        match self.timeout {
            Some(t) => setting_or(t.write_timeout_secs, DEFAULT_WRITE_TIMEOUT_SECS),
            None => DEFAULT_WRITE_TIMEOUT_SECS,
        }
    }

    pub fn get_connect_timeout_secs(&self) -> (secs: u64)
        ensures
            secs == self.spec_connect_timeout_secs(),
    {
        match &self.timeout {
            Some(t) => match t.connect_timeout_secs {
                Some(v) => v,
                None => DEFAULT_CONNECT_TIMEOUT_SECS,
            },
            None => DEFAULT_CONNECT_TIMEOUT_SECS,
        }
    }

    pub fn get_read_timeout_secs(&self) -> (secs: u64)
        ensures
            secs == self.spec_read_timeout_secs(),
    {
        match &self.timeout {
            Some(t) => match t.read_timeout_secs {
                Some(v) => v,
                None => DEFAULT_READ_TIMEOUT_SECS,
            },
            None => DEFAULT_READ_TIMEOUT_SECS,
        }
    }

    pub fn get_write_timeout_secs(&self) -> (secs: u64)
        ensures
            secs == self.spec_write_timeout_secs(),
    {
        match &self.timeout {
            Some(t) => match t.write_timeout_secs {
                Some(v) => v,
                None => DEFAULT_WRITE_TIMEOUT_SECS,
            },
            None => DEFAULT_WRITE_TIMEOUT_SECS,
        }
    }
}

/// A timeout left out of the configuration, with or without a timeout
/// section, is 5 s to connect, 10 s to read and 10 s to write; a timeout
/// that the configuration gives is taken as it is.
pub proof fn lemma_timeout_defaults(c: Config)
    ensures
        c.timeout is None ==> c.spec_connect_timeout_secs() == 5 && c.spec_read_timeout_secs()
            == 10 && c.spec_write_timeout_secs() == 10,
        c.timeout matches Some(t) ==> {
            &&& (t.connect_timeout_secs matches Some(v) ==> c.spec_connect_timeout_secs() == v)
            &&& (t.connect_timeout_secs is None ==> c.spec_connect_timeout_secs() == 5)
            &&& (t.read_timeout_secs matches Some(v) ==> c.spec_read_timeout_secs() == v)
            &&& (t.read_timeout_secs is None ==> c.spec_read_timeout_secs() == 10)
            &&& (t.write_timeout_secs matches Some(v) ==> c.spec_write_timeout_secs() == v)
            &&& (t.write_timeout_secs is None ==> c.spec_write_timeout_secs() == 10)
        },
{
}

/// Each timeout depends on its own setting alone: two configurations that
/// agree on one setting give the same timeout for it, whatever the other
/// settings and the servers.
pub proof fn lemma_timeouts_independent(c1: Config, c2: Config)
    requires
        c1.timeout is Some,
        c2.timeout is Some,
    ensures
        c1.timeout->0.connect_timeout_secs == c2.timeout->0.connect_timeout_secs
            ==> c1.spec_connect_timeout_secs() == c2.spec_connect_timeout_secs(),
        c1.timeout->0.read_timeout_secs == c2.timeout->0.read_timeout_secs
            ==> c1.spec_read_timeout_secs() == c2.spec_read_timeout_secs(),
        c1.timeout->0.write_timeout_secs == c2.timeout->0.write_timeout_secs
            ==> c1.spec_write_timeout_secs() == c2.spec_write_timeout_secs(),
{
}

} // verus!
