use std::collections::HashMap;
use std::time::Instant;
use sysinfo::System;
use sysinfo::SystemExt;
use vstd::prelude::*;

verus! {

broadcast use vstd::std_specs::hash::group_hash_axioms;

/// The system snapshot of the `sysinfo` crate, carried through opaquely.
#[verifier::external_type_specification]
#[verifier::external_body]
pub struct ExSystem(System);

/// A point in time of std's monotonic clock, carried through opaquely.
#[verifier::external_type_specification]
#[verifier::external_body]
pub struct ExInstant(Instant);

/// Takes a full snapshot of the machine with `sysinfo::System::new_all`.
/// What the snapshot holds depends on the machine; nothing is stated of it.
#[verifier::external_body]
fn system_snapshot() -> System {
    System::new_all()
}

/// Refreshes every part of the snapshot with `sysinfo::SystemExt::refresh_all`.
/// What it reads depends on the machine; nothing is stated of it.
#[verifier::external_body]
fn refresh_system(system: &mut System) {
    system.refresh_all();
}

/// The current time, from `std::time::Instant::now`.
/// It depends on the clock; nothing is stated of it.
#[verifier::external_body]
fn current_instant() -> Instant {
    Instant::now()
}

/// The state of one forwarding as the monitor reports it.
#[derive(Debug, Clone, Copy, PartialEq, Eq, Structural)]
pub enum ForwardingStatus {
    Active,
    Error,
    Unknown,
}

/// A forwarding that the monitor follows.
#[derive(Debug)]
pub struct ForwardingEntry {
    pub local_port: u16,
    pub remote_host: String,
    pub remote_port: u16,
    pub status: ForwardingStatus,
    pub created_at: Instant,
}

/// A server that the monitor follows, with its forwardings in the order
/// they were added.
#[derive(Debug)]
pub struct ServerEntry {
    pub name: String,
    pub host: String,
    pub port: u16,
    pub username: String,
    pub forwardings: Vec<ForwardingEntry>,
}

/// What a forwarding entry holds, with its texts as character sequences.
pub struct ForwardingView {
    pub local_port: u16,
    pub remote_host: Seq<char>,
    pub remote_port: u16,
    pub status: ForwardingStatus,
    pub created_at: Instant,
}

/// What a server entry holds, with its texts as character sequences.
pub struct ServerView {
    pub name: Seq<char>,
    pub host: Seq<char>,
    pub port: u16,
    pub username: Seq<char>,
    pub forwardings: Seq<ForwardingView>,
}

impl View for ForwardingEntry {
    type V = ForwardingView;

    open spec fn view(&self) -> ForwardingView {
        ForwardingView {
            local_port: self.local_port,
            remote_host: self.remote_host@,
            remote_port: self.remote_port,
            status: self.status,
            created_at: self.created_at,
        }
    }
}

impl View for ServerEntry {
    type V = ServerView;

    open spec fn view(&self) -> ServerView {
        ServerView {
            name: self.name@,
            host: self.host@,
            port: self.port,
            username: self.username@,
            forwardings: self.forwardings@.map_values(|f: ForwardingEntry| f@),
        }
    }
}

/// The name that a port is shown with until a process is known for it.
pub open spec fn unknown_process() -> Seq<char> {
    "Unknown"@
}

/// The rows that the status table shows for some servers: one per server
/// and one per forwarding.
pub open spec fn row_total(servers: Seq<ServerView>) -> nat
    decreases servers.len(),
{
    if servers.len() == 0 {
        0
    } else {
        row_total(servers.drop_last()) + 1 + servers.last().forwardings.len()
    }
}

/// The number of forwardings of some servers taken together.
pub open spec fn forwarding_total(servers: Seq<ServerView>) -> nat
    decreases servers.len(),
{
    if servers.len() == 0 {
        0
    } else {
        forwarding_total(servers.drop_last()) + servers.last().forwardings.len()
    }
}

/// Whether some forwarding of some server is active.
pub open spec fn any_active(servers: Seq<ServerView>) -> bool {
    exists|i: int, j: int|
        0 <= i < servers.len() && 0 <= j < servers[i].forwardings.len()
            && #[trigger] servers[i].forwardings[j].status == ForwardingStatus::Active
}

/// Whether position `i` holds the first server of the given name.
pub open spec fn is_first_named(servers: Seq<ServerView>, name: Seq<char>, i: int) -> bool {
    &&& 0 <= i < servers.len()
    &&& servers[i].name == name
    &&& forall|k: int| 0 <= k < i ==> servers[k].name != name
}

/// The first position at which a server of the given name stands, if any.
pub open spec fn server_position(servers: Seq<ServerView>, name: Seq<char>) -> Option<int> {
    if exists|i: int| is_first_named(servers, name, i) {
        Some(choose|i: int| is_first_named(servers, name, i))
    } else {
        None
    }
}

/// The servers after one more forwarding was recorded for the server at
/// position `p`: that server keeps its name, address and user, and its
/// forwardings gain `f` at the end; every other server stays as it was.
pub open spec fn forwarding_recorded(
    before: Seq<ServerView>,
    after: Seq<ServerView>,
    p: int,
    local_port: u16,
    remote_host: Seq<char>,
    remote_port: u16,
) -> bool {
    &&& 0 <= p < before.len()
    &&& after.len() == before.len()
    &&& forall|k: int| 0 <= k < before.len() && k != p ==> after[k] == before[k]
    &&& after[p].name == before[p].name
    &&& after[p].host == before[p].host
    &&& after[p].port == before[p].port
    &&& after[p].username == before[p].username
    &&& after[p].forwardings.len() == before[p].forwardings.len() + 1
    &&& after[p].forwardings.drop_last() == before[p].forwardings
    &&& after[p].forwardings.last().local_port == local_port
    &&& after[p].forwardings.last().remote_host == remote_host
    &&& after[p].forwardings.last().remote_port == remote_port
    &&& after[p].forwardings.last().status == ForwardingStatus::Active
}

/// The ports after `port` was started to be followed.
pub open spec fn port_added(before: MonitorView, after: MonitorView, port: u16) -> bool {
    &&& after.processes == (if before.processes.contains_key(port) {
        before.processes
    } else {
        before.processes.insert(port, unknown_process())
    })
    &&& after.traffic == (if before.traffic.contains_key(port) {
        before.traffic
    } else {
        before.traffic.insert(port, (0u64, 0u64))
    })
}

/// Counting rows over a prefix never gives more than over the whole.
pub proof fn lemma_row_total_prefix(servers: Seq<ServerView>, i: int)
    requires
        0 <= i <= servers.len(),
    ensures
        row_total(servers.take(i)) <= row_total(servers),
        forwarding_total(servers) <= row_total(servers),
    decreases servers.len(),
{
    if servers.len() > 0 {
        lemma_row_total_prefix(servers.drop_last(), if i == servers.len() { 0 } else { i });
        if i < servers.len() {
            assert(servers.take(i) =~= servers.drop_last().take(i));
        } else {
            assert(servers.take(i) =~= servers);
        }
    } else {
        assert(servers.take(i) =~= servers);
    }
}

/// One more server adds its own row and one per forwarding.
pub proof fn lemma_row_total_step(servers: Seq<ServerView>, i: int)
    requires
        0 <= i < servers.len(),
    ensures
        row_total(servers.take(i + 1)) == row_total(servers.take(i)) + 1
            + servers[i].forwardings.len(),
        forwarding_total(servers.take(i + 1)) == forwarding_total(servers.take(i))
            + servers[i].forwardings.len(),
{
    assert(servers.take(i + 1).drop_last() =~= servers.take(i));
}

/// The observation of port owners as texts: each local port with the name
/// of the process seen listening on it.
pub open spec fn observed_view(observed: Seq<(u16, String)>) -> Seq<(u16, Seq<char>)> {
    observed.map_values(|e: (u16, String)| (e.0, e.1@))
}

/// The name an observation first gives for a port, if it lists the port.
pub open spec fn observed_name(observed: Seq<(u16, Seq<char>)>, port: u16) -> Option<Seq<char>>
    decreases observed.len(),
{
    if observed.len() == 0 {
        None
    } else if observed[0].0 == port {
        Some(observed[0].1)
    } else {
        observed_name(observed.drop_first(), port)
    }
}

/// The processes of the followed ports after an observation: each followed
/// port that the observation lists takes the name first listed for it, the
/// others keep theirs, and no port is added or dropped.
pub open spec fn refreshed_processes(
    processes: Map<u16, Seq<char>>,
    observed: Seq<(u16, Seq<char>)>,
) -> Map<u16, Seq<char>> {
    Map::new(
        |p: u16| processes.contains_key(p),
        |p: u16|
            match observed_name(observed, p) {
                Some(n) => n,
                None => processes[p],
            },
    )
}

/// What the monitor holds: the process and the traffic known for each
/// local port, and the servers with their forwardings.
pub struct MonitorView {
    pub processes: Map<u16, Seq<char>>,
    pub traffic: Map<u16, (u64, u64)>,
    pub servers: Seq<ServerView>,
}

/// Follows the servers and forwardings that were set up, and what is known
/// of the local ports they use.
pub struct Monitor {
    system: System,
    port_process_map: HashMap<u16, String>,
    port_traffic_map: HashMap<u16, (u64, u64)>,
    servers: Vec<ServerEntry>,
    last_update: Instant,
}

impl View for Monitor {
    type V = MonitorView;

    closed spec fn view(&self) -> MonitorView {
        MonitorView {
            processes: self.port_process_map@.map_values(|s: String| s@),
            traffic: self.port_traffic_map@,
            servers: self.servers@.map_values(|s: ServerEntry| s@),
        }
    }
}

impl Monitor {
    /// The rows of the status table: one per server and one per forwarding.
    pub open spec fn spec_total_rows(&self) -> nat {
        row_total(self@.servers)
    }

    /// Whether the rows of the status table can be counted in a `usize`.
    pub open spec fn rows_fit(&self) -> bool {
        self.spec_total_rows() <= usize::MAX
    }

    /// A monitor that knows no port and no server.
    pub fn new() -> (m: Monitor)
        ensures
            m@.processes == Map::<u16, Seq<char>>::empty(),
            m@.traffic == Map::<u16, (u64, u64)>::empty(),
            m@.servers == Seq::<ServerView>::empty(),
    {
        let m = Monitor {
            system: system_snapshot(),
            port_process_map: HashMap::new(),
            port_traffic_map: HashMap::new(),
            servers: Vec::new(),
            last_update: current_instant(),
        };
        assert(m@.processes =~= Map::<u16, Seq<char>>::empty());
        assert(m@.servers =~= Seq::<ServerView>::empty());
        m
    }

    /// Refreshes the system snapshot, records the processes observed on the
    /// followed ports (as `update_port_process_map` says), and notes the
    /// time. `observed` lists local ports with the name of the process seen
    /// listening on each. Traffic and servers stay as they were.
    pub fn update(&mut self, observed: &Vec<(u16, String)>)
        ensures
            final(self)@.processes == refreshed_processes(
                old(self)@.processes,
                observed_view(observed@),
            ),
            final(self)@.traffic == old(self)@.traffic,
            final(self)@.servers == old(self)@.servers,
    {
        refresh_system(&mut self.system);
        self.update_port_process_map(observed);
        self.last_update = current_instant();
    }

    /// Matches the followed ports with the processes observed on them: a
    /// followed port that `observed` lists takes the name first listed for
    /// it; a followed port it does not list keeps the name it had; ports that
    /// are not followed are not added.
    fn update_port_process_map(&mut self, observed: &Vec<(u16, String)>)
        ensures
            final(self)@.processes == refreshed_processes(
                old(self)@.processes,
                observed_view(observed@),
            ),
            final(self)@.traffic == old(self)@.traffic,
            final(self)@.servers == old(self)@.servers,
    {
        let ghost seen = observed_view(observed@);
        let ghost before = self@.processes;
        let mut i: usize = observed.len();
        while i > 0
            invariant
                i <= observed.len(),
                seen == observed_view(observed@),
                self@.traffic == old(self)@.traffic,
                self@.servers == old(self)@.servers,
                before == old(self)@.processes,
                self@.processes == refreshed_processes(
                    before,
                    seen.subrange(i as int, seen.len() as int),
                ),
            decreases i,
        {
            i = i - 1;
            let ghost prev = self@.processes;
            let ghost raw_prev = self.port_process_map@;
            let entry = &observed[i];
            let followed = self.port_process_map.contains_key(&entry.0);
            if followed {
                let name = entry.1.clone();
                self.port_process_map.insert(entry.0, name);
                assert(self.port_process_map@ == raw_prev.insert(entry.0, name));
            }
            proof {
                let rest = seen.subrange(i as int, seen.len() as int);
                assert(rest.drop_first() =~= seen.subrange(i + 1, seen.len() as int));
                assert(rest[0] == seen[i as int]);
                assert(seen[i as int] == (entry.0, entry.1@));
                let after = refreshed_processes(before, rest);
                assert forall|p: u16| #[trigger] after.contains_key(p) implies
                    self@.processes.contains_key(p) && self@.processes[p] == after[p] by {
                    assert(prev == refreshed_processes(
                        before,
                        seen.subrange(i + 1, seen.len() as int),
                    ));
                    assert(prev.contains_key(p));
                    assert(observed_name(rest, p) == if entry.0 == p {
                        Some(entry.1@)
                    } else {
                        observed_name(seen.subrange(i + 1, seen.len() as int), p)
                    });
                    assert(self@.processes[p] == self.port_process_map@[p]@);
                    assert(prev[p] == raw_prev[p]@);
                    if p == entry.0 {
                        assert(followed);
                        assert(self.port_process_map@[p]@ == entry.1@);
                    } else {
                        assert(self.port_process_map@[p] == raw_prev[p]);
                    }
                }
                assert(self@.processes.dom() =~= after.dom());
                assert(self@.processes =~= after);
            }
        }
        proof {
            assert(seen.subrange(0, seen.len() as int) =~= seen);
        }
    }

    /// The process known for a local port.
    pub fn get_process_for_port(&self, port: u16) -> (r: Option<&String>)
        ensures
            r is Some <==> self@.processes.contains_key(port),
            r matches Some(s) ==> s@ == self@.processes[port],
    {
        self.port_process_map.get(&port)
    }

    /// The bytes sent and received that are known for a local port.
    pub fn get_traffic_for_port(&self, port: u16) -> (r: Option<&(u64, u64)>)
        ensures
            r is Some <==> self@.traffic.contains_key(port),
            r matches Some(t) ==> *t == self@.traffic[port],
    {
        self.port_traffic_map.get(&port)
    }

    /// Starts following a local port: a port not known yet gets the process
    /// `Unknown` and no traffic; a known port keeps what it has.
    pub fn add_port(&mut self, port: u16)
        ensures
            final(self)@.processes == (if old(self)@.processes.contains_key(port) {
                old(self)@.processes
            } else {
                old(self)@.processes.insert(port, unknown_process())
            }),
            final(self)@.traffic == (if old(self)@.traffic.contains_key(port) {
                old(self)@.traffic
            } else {
                old(self)@.traffic.insert(port, (0u64, 0u64))
            }),
            final(self)@.servers == old(self)@.servers,
            port_added(old(self)@, final(self)@, port),
    {
        if !self.port_process_map.contains_key(&port) {
            self.port_process_map.insert(port, String::from_str("Unknown"));
        }
        if !self.port_traffic_map.contains_key(&port) {
            self.port_traffic_map.insert(port, (0, 0));
        }
        assert(self@.processes =~= (if old(self)@.processes.contains_key(port) {
            old(self)@.processes
        } else {
            old(self)@.processes.insert(port, unknown_process())
        }));
    }

    /// Starts following a server; it has no forwardings yet.
    pub fn add_server(&mut self, name: String, host: String, port: u16, username: String)
        ensures
            final(self)@.processes == old(self)@.processes,
            final(self)@.traffic == old(self)@.traffic,
            final(self)@.servers == old(self)@.servers.push(
                ServerView {
                    name: name@,
                    host: host@,
                    port,
                    username: username@,
                    forwardings: Seq::empty(),
                },
            ),
    {
        let entry = ServerEntry { name, host, port, username, forwardings: Vec::new() };
        assert(entry@.forwardings =~= Seq::<ForwardingView>::empty());
        self.servers.push(entry);
        assert(self@.servers =~= old(self)@.servers.push(
            ServerView {
                name: name@,
                host: host@,
                port,
                username: username@,
                forwardings: Seq::empty(),
            },
        ));
    }

    /// Records an established forwarding under the first server of the given
    /// name, as active and created now, and starts following its local port.
    /// Where no server has that name, nothing changes.
    pub fn add_forwarding_to_server(
        &mut self,
        server_name: &String,
        local_port: u16,
        remote_host: String,
        remote_port: u16,
    )
        ensures
            match server_position(old(self)@.servers, server_name@) {
                Some(p) => {
                    &&& forwarding_recorded(
                        old(self)@.servers,
                        final(self)@.servers,
                        p,
                        local_port,
                        remote_host@,
                        remote_port,
                    )
                    &&& port_added(old(self)@, final(self)@, local_port)
                },
                None => final(self)@ == old(self)@,
            },
    {
        let ghost before = self@.servers;
        let mut i: usize = 0;
        while i < self.servers.len()
            invariant
                i <= self.servers.len(),
                self@ == old(self)@,
                before == self@.servers,
                forall|k: int| 0 <= k < i ==> before[k].name != server_name@,
            decreases self.servers.len() - i,
        {
            if self.servers[i].name == *server_name {
                assert(is_first_named(before, server_name@, i as int));
                assert forall|j: int| is_first_named(before, server_name@, j) implies j == i by {
                    if j < i {
                    } else if j > i {
                        assert(before[i as int].name == server_name@);
                    }
                }
                let mut entry = self.servers.remove(i);
                let ghost old_forwardings = entry.forwardings@;
                entry.forwardings.push(
                    ForwardingEntry {
                        local_port,
                        remote_host,
                        remote_port,
                        status: ForwardingStatus::Active,
                        created_at: current_instant(),
                    },
                );
                assert(entry.forwardings@.drop_last() =~= old_forwardings);
                self.servers.insert(i, entry);
                assert(entry@.forwardings.drop_last() =~= before[i as int].forwardings);
                self.add_port(local_port);
                assert(forwarding_recorded(
                    before,
                    self@.servers,
                    i as int,
                    local_port,
                    remote_host@,
                    remote_port,
                ));
                return;
            }
            i = i + 1;
        }
        assert(!exists|j: int| is_first_named(before, server_name@, j));
    }

    /// Whether some forwarding of some server is active.
    pub fn has_active_forwardings(&self) -> (r: bool)
        ensures
            r == any_active(self@.servers),
    {
        let ghost servers = self@.servers;
        let mut i: usize = 0;
        while i < self.servers.len()
            invariant
                i <= self.servers.len(),
                servers == self@.servers,
                forall|a: int, b: int|
                    0 <= a < i && 0 <= b < servers[a].forwardings.len()
                        ==> servers[a].forwardings[b].status != ForwardingStatus::Active,
            decreases self.servers.len() - i,
        {
            let forwardings = &self.servers[i].forwardings;
            let mut j: usize = 0;
            while j < forwardings.len()
                invariant
                    j <= forwardings.len(),
                    i < self.servers.len(),
                    servers == self@.servers,
                    forwardings@.map_values(|f: ForwardingEntry| f@) == servers[i as int].forwardings,
                    forall|b: int|
                        0 <= b < j ==> servers[i as int].forwardings[b].status
                            != ForwardingStatus::Active,
                decreases forwardings.len() - j,
            {
                if forwardings[j].status == ForwardingStatus::Active {
                    assert(servers[i as int].forwardings[j as int].status == ForwardingStatus::Active);
                    return true;
                }
                j = j + 1;
            }
            i = i + 1;
        }
        false
    }

    /// The servers in the order they were added.
    pub fn iter_servers(&self) -> (r: &Vec<ServerEntry>)
        ensures
            r@.map_values(|s: ServerEntry| s@) == self@.servers,
    {
        &self.servers
    }

    /// The rows of the status table, one per server and one per forwarding,
    /// or `None` where that number does not fit in a `usize`.
    pub fn row_count(&self) -> (r: Option<usize>)
        ensures
            r matches Some(n) ==> n == self.spec_total_rows(),
            r is None <==> !self.rows_fit(),
    {
        let ghost servers = self@.servers;
        let mut total: usize = 0;
        let mut i: usize = 0;
        while i < self.servers.len()
            invariant
                i <= self.servers.len(),
                servers == self@.servers,
                total == row_total(servers.take(i as int)),
            decreases self.servers.len() - i,
        {
            proof {
                lemma_row_total_step(servers, i as int);
                lemma_row_total_prefix(servers, i + 1);
            }
            let n = self.servers[i].forwardings.len();
            match total.checked_add(1) {
                Some(t) => match t.checked_add(n) {
                    Some(t2) => {
                        total = t2;
                    },
                    None => {
                        return None;
                    },
                },
                None => {
                    return None;
                },
            }
            i = i + 1;
        }
        assert(servers.take(i as int) =~= servers);
        Some(total)
    }

    /// The number of forwardings of all servers together.
    pub fn total_forwardings(&self) -> (r: usize)
        requires
            self.rows_fit(),
        ensures
            r == forwarding_total(self@.servers),
    {
        let ghost servers = self@.servers;
        proof { lemma_row_total_prefix(servers, 0); }
        let mut total: usize = 0;
        let mut i: usize = 0;
        while i < self.servers.len()
            invariant
                i <= self.servers.len(),
                servers == self@.servers,
                forwarding_total(servers) <= usize::MAX,
                total == forwarding_total(servers.take(i as int)),
            decreases self.servers.len() - i,
        {
            proof {
                lemma_row_total_step(servers, i as int);
                lemma_forwarding_total_prefix(servers, i + 1);
            }
            total = total + self.servers[i].forwardings.len();
            i = i + 1;
        }
        assert(servers.take(i as int) =~= servers);
        total
    }
}

/// Counting forwardings over a prefix never gives more than over the whole.
proof fn lemma_forwarding_total_prefix(servers: Seq<ServerView>, i: int)
    requires
        0 <= i <= servers.len(),
    ensures
        forwarding_total(servers.take(i)) <= forwarding_total(servers),
    decreases servers.len(),
{
    if servers.len() > 0 {
        lemma_forwarding_total_prefix(servers.drop_last(), if i == servers.len() { 0 } else { i });
        if i < servers.len() {
            assert(servers.take(i) =~= servers.drop_last().take(i));
        } else {
            assert(servers.take(i) =~= servers);
        }
    } else {
        assert(servers.take(i) =~= servers);
    }
}

/// Following a port twice is the same as following it once.
pub proof fn lemma_add_port_idempotent(a: MonitorView, b: MonitorView, c: MonitorView, port: u16)
    requires
        port_added(a, b, port),
        port_added(b, c, port),
    ensures
        c.processes == b.processes,
        c.traffic == b.traffic,
{
}

/// Once a port is followed, its process and traffic are known, and a port
/// that was new has the process `Unknown` and no traffic.
pub proof fn lemma_added_port_is_known(a: MonitorView, b: MonitorView, port: u16)
    requires
        port_added(a, b, port),
    ensures
        b.processes.contains_key(port),
        b.traffic.contains_key(port),
        !a.processes.contains_key(port) ==> b.processes[port] == unknown_process(),
        !a.traffic.contains_key(port) ==> b.traffic[port] == (0u64, 0u64),
        a.processes.contains_key(port) ==> b.processes[port] == a.processes[port],
        a.traffic.contains_key(port) ==> b.traffic[port] == a.traffic[port],
{
}

/// A recorded forwarding is active, so the monitor has an active forwarding
/// afterwards.
pub proof fn lemma_recorded_forwarding_is_active(
    before: Seq<ServerView>,
    after: Seq<ServerView>,
    p: int,
    local_port: u16,
    remote_host: Seq<char>,
    remote_port: u16,
)
    requires
        forwarding_recorded(before, after, p, local_port, remote_host, remote_port),
    ensures
        any_active(after),
{
    let j = after[p].forwardings.len() - 1;
    assert(after[p].forwardings[j].status == ForwardingStatus::Active);
}

/// Recording a forwarding adds one row and one forwarding to the table.
pub proof fn lemma_recorded_forwarding_adds_a_row(
    before: Seq<ServerView>,
    after: Seq<ServerView>,
    p: int,
    local_port: u16,
    remote_host: Seq<char>,
    remote_port: u16,
)
    requires
        forwarding_recorded(before, after, p, local_port, remote_host, remote_port),
    ensures
        row_total(after) == row_total(before) + 1,
        forwarding_total(after) == forwarding_total(before) + 1,
    decreases before.len(),
{
    if p < before.len() - 1 {
        assert(forwarding_recorded(
            before.drop_last(),
            after.drop_last(),
            p,
            local_port,
            remote_host,
            remote_port,
        ));
        lemma_recorded_forwarding_adds_a_row(
            before.drop_last(),
            after.drop_last(),
            p,
            local_port,
            remote_host,
            remote_port,
        );
        assert(after.last() == before.last());
    } else {
        assert(after.drop_last() =~= before.drop_last());
    }
}

/// Adding a server adds its own row and no forwarding.
pub proof fn lemma_added_server_adds_a_row(servers: Seq<ServerView>, server: ServerView)
    requires
        server.forwardings.len() == 0,
    ensures
        row_total(servers.push(server)) == row_total(servers) + 1,
        forwarding_total(servers.push(server)) == forwarding_total(servers),
{
    assert(servers.push(server).drop_last() =~= servers);
}

/// A monitor that knows no server has no active forwarding and no rows.
pub proof fn lemma_empty_monitor(m: MonitorView)
    requires
        m.servers.len() == 0,
    ensures
        !any_active(m.servers),
        row_total(m.servers) == 0,
{
}

/// A followed port that the observation lists takes the name listed first
/// for it; the followed ports stay the same ones.
pub proof fn lemma_observed_port_takes_name(
    processes: Map<u16, Seq<char>>,
    observed: Seq<(u16, Seq<char>)>,
    k: int,
)
    requires
        0 <= k < observed.len(),
        processes.contains_key(observed[k].0),
        forall|j: int| 0 <= j < k ==> observed[j].0 != observed[k].0,
    ensures
        observed_name(observed, observed[k].0) == Some(observed[k].1),
        refreshed_processes(processes, observed)[observed[k].0] == observed[k].1,
        refreshed_processes(processes, observed).dom() == processes.dom(),
    decreases k,
{
    if k > 0 {
        let rest = observed.drop_first();
        assert(rest[k - 1] == observed[k]);
        lemma_observed_port_takes_name(processes, rest, k - 1);
    }
    assert(refreshed_processes(processes, observed).dom() =~= processes.dom());
}

/// An observation that lists no port changes no process.
pub proof fn lemma_empty_observation(processes: Map<u16, Seq<char>>)
    ensures
        refreshed_processes(processes, Seq::empty()) == processes,
{
    assert(refreshed_processes(processes, Seq::empty()) =~= processes);
}

/// Observing the same table twice is the same as observing it once.
pub proof fn lemma_observation_idempotent(
    processes: Map<u16, Seq<char>>,
    observed: Seq<(u16, Seq<char>)>,
)
    ensures
        refreshed_processes(refreshed_processes(processes, observed), observed)
            == refreshed_processes(processes, observed),
{
    assert(refreshed_processes(refreshed_processes(processes, observed), observed)
        =~= refreshed_processes(processes, observed));
}

} // verus!
